//! `tensormap` object state: a side table of named fields, keyed by the
//! `(space, address)` the tensor-map object is accessed at.
//!
//! A tensor-map is an *opaque* object; only its named fields are modeled. Each
//! entry holds the fields written so far, absent until then.

use vstd::prelude::*;
use std::collections::HashMap;

use crate::eval::space_map::SpaceMap;
use crate::eval::tcgen05_mma::SwizzleMode;
use crate::lowered::MemSpace;
use crate::tensor_map::{
    TensorElemType, TensorFillMode, TensorInterleaveLayout, TensorSwizzleAtomicity,
    TensorSwizzleMode,
};

verus! {

/// One tensor-map object's fields. Per-dimension fields are sparse (keyed by
/// `ord`): whether every needed `ord` is present is checked only where the
/// object is used.
#[derive(Debug)]
pub struct TensorMapEntry {
    pub global_address: Option<u64>,
    /// Zero-based: the real tensor rank is `rank + 1`.
    pub rank: Option<u32>,
    pub box_dim: HashMap<u32, u32>,
    pub global_dim: HashMap<u32, u64>,
    pub global_stride: HashMap<u32, u64>,
    pub element_stride: HashMap<u32, u32>,
    pub elemtype: Option<TensorElemType>,
    pub interleave_layout: Option<TensorInterleaveLayout>,
    pub swizzle_mode: Option<TensorSwizzleMode>,
    pub swizzle_atomicity: Option<TensorSwizzleAtomicity>,
    pub fill_mode: Option<TensorFillMode>,
}

/// The fields of a tensor-map object.
#[verifier::ext_equal]
pub struct TensorMapFields {
    pub global_address: Option<u64>,
    pub rank: Option<u32>,
    pub box_dim: Map<u32, u32>,
    pub global_dim: Map<u32, u64>,
    pub global_stride: Map<u32, u64>,
    pub element_stride: Map<u32, u32>,
    pub elemtype: Option<TensorElemType>,
    pub interleave_layout: Option<TensorInterleaveLayout>,
    pub swizzle_mode: Option<TensorSwizzleMode>,
    pub swizzle_atomicity: Option<TensorSwizzleAtomicity>,
    pub fill_mode: Option<TensorFillMode>,
}

impl View for TensorMapEntry {
    type V = TensorMapFields;

    open spec fn view(&self) -> TensorMapFields {
        TensorMapFields {
            global_address: self.global_address,
            rank: self.rank,
            box_dim: self.box_dim@,
            global_dim: self.global_dim@,
            global_stride: self.global_stride@,
            element_stride: self.element_stride@,
            elemtype: self.elemtype,
            interleave_layout: self.interleave_layout,
            swizzle_mode: self.swizzle_mode,
            swizzle_atomicity: self.swizzle_atomicity,
            fill_mode: self.fill_mode,
        }
    }
}

/// The value of one field; per-dimension fields name their dimension.
#[derive(Debug, Clone, Copy, PartialEq, Eq)]
pub enum FieldValue {
    GlobalAddress(u64),
    Rank(u32),
    BoxDim(u32, u32),
    GlobalDim(u32, u64),
    GlobalStride(u32, u64),
    ElementStride(u32, u32),
    Elemtype(TensorElemType),
    InterleaveLayout(TensorInterleaveLayout),
    SwizzleMode(TensorSwizzleMode),
    SwizzleAtomicity(TensorSwizzleAtomicity),
    FillMode(TensorFillMode),
}

impl TensorMapFields {
    /// The object with one field written.
    pub open spec fn with_field(self, v: FieldValue) -> TensorMapFields {
        match v {
            FieldValue::GlobalAddress(x) => TensorMapFields { global_address: Some(x), ..self },
            FieldValue::Rank(x) => TensorMapFields { rank: Some(x), ..self },
            FieldValue::BoxDim(d, x) => TensorMapFields {
                box_dim: self.box_dim.insert(d, x),
                ..self
            },
            FieldValue::GlobalDim(d, x) => TensorMapFields {
                global_dim: self.global_dim.insert(d, x),
                ..self
            },
            FieldValue::GlobalStride(d, x) => TensorMapFields {
                global_stride: self.global_stride.insert(d, x),
                ..self
            },
            FieldValue::ElementStride(d, x) => TensorMapFields {
                element_stride: self.element_stride.insert(d, x),
                ..self
            },
            FieldValue::Elemtype(x) => TensorMapFields { elemtype: Some(x), ..self },
            FieldValue::InterleaveLayout(x) => TensorMapFields {
                interleave_layout: Some(x),
                ..self
            },
            FieldValue::SwizzleMode(x) => TensorMapFields { swizzle_mode: Some(x), ..self },
            FieldValue::SwizzleAtomicity(x) => TensorMapFields {
                swizzle_atomicity: Some(x),
                ..self
            },
            FieldValue::FillMode(x) => TensorMapFields { fill_mode: Some(x), ..self },
        }
    }

    /// No field written yet.
    pub open spec fn blank() -> TensorMapFields {
        TensorMapFields {
            global_address: None,
            rank: None,
            box_dim: Map::empty(),
            global_dim: Map::empty(),
            global_stride: Map::empty(),
            element_stride: Map::empty(),
            elemtype: None,
            interleave_layout: None,
            swizzle_mode: None,
            swizzle_atomicity: None,
            fill_mode: None,
        }
    }
}

impl TensorMapEntry {
    /// Writes one field.
    pub fn set_field(&mut self, v: FieldValue)
        ensures
            final(self)@ == old(self)@.with_field(v),
    {
        broadcast use vstd::std_specs::hash::group_hash_axioms;

        match v {
            FieldValue::GlobalAddress(x) => {
                self.global_address = Some(x);
            },
            FieldValue::Rank(x) => {
                self.rank = Some(x);
            },
            FieldValue::BoxDim(d, x) => {
                self.box_dim.insert(d, x);
            },
            FieldValue::GlobalDim(d, x) => {
                self.global_dim.insert(d, x);
            },
            FieldValue::GlobalStride(d, x) => {
                self.global_stride.insert(d, x);
            },
            FieldValue::ElementStride(d, x) => {
                self.element_stride.insert(d, x);
            },
            FieldValue::Elemtype(x) => {
                self.elemtype = Some(x);
            },
            FieldValue::InterleaveLayout(x) => {
                self.interleave_layout = Some(x);
            },
            FieldValue::SwizzleMode(x) => {
                self.swizzle_mode = Some(x);
            },
            FieldValue::SwizzleAtomicity(x) => {
                self.swizzle_atomicity = Some(x);
            },
            FieldValue::FillMode(x) => {
                self.fill_mode = Some(x);
            },
        }
    }

    fn blank() -> (r: Self)
        ensures
            r@ == TensorMapFields::blank(),
    {
        TensorMapEntry {
            global_address: None,
            rank: None,
            box_dim: HashMap::new(),
            global_dim: HashMap::new(),
            global_stride: HashMap::new(),
            element_stride: HashMap::new(),
            elemtype: None,
            interleave_layout: None,
            swizzle_mode: None,
            swizzle_atomicity: None,
            fill_mode: None,
        }
    }

    fn copy(&self) -> (r: Self)
        ensures
            r@ == self@,
    {
        TensorMapEntry {
            global_address: self.global_address,
            rank: self.rank,
            box_dim: self.box_dim.clone(),
            global_dim: self.global_dim.clone(),
            global_stride: self.global_stride.clone(),
            element_stride: self.element_stride.clone(),
            elemtype: self.elemtype,
            interleave_layout: self.interleave_layout,
            swizzle_mode: self.swizzle_mode,
            swizzle_atomicity: self.swizzle_atomicity,
            fill_mode: self.fill_mode,
        }
    }
}

/// Every live tensor-map object in one kernel run.
#[derive(Debug)]
pub struct TensorMapTable {
    entries: SpaceMap<TensorMapEntry>,
}

impl View for TensorMapTable {
    type V = Map<(MemSpace, u64), TensorMapFields>;

    closed spec fn view(&self) -> Map<(MemSpace, u64), TensorMapFields> {
        self.entries@.map_values(|e: TensorMapEntry| e@)
    }
}

impl TensorMapTable {
    pub closed spec fn wf(&self) -> bool {
        self.entries.wf()
    }

    pub fn new() -> (r: Self)
        ensures
            r.wf(),
            r@ == Map::<(MemSpace, u64), TensorMapFields>::empty(),
    {
        let r = TensorMapTable { entries: SpaceMap::new() };
        assert(r@ =~= Map::<(MemSpace, u64), TensorMapFields>::empty());
        r
    }

    /// Get-or-create the entry at `(space, addr)`: a tensor-map object comes
    /// into existence at its first field write.
    pub fn entry_mut(&mut self, space: MemSpace, addr: u64) -> (r: &mut TensorMapEntry)
        requires
            old(self).wf(),
        ensures
            r@ == (if old(self)@.contains_key((space, addr)) {
                old(self)@[(space, addr)]
            } else {
                TensorMapFields::blank()
            }),
            final(self).wf(),
            final(self)@ == old(self)@.insert((space, addr), final(r)@),
    {
        proof {
            lemma_insert_fields(self.entries@, (space, addr));
        }
        self.entries.entry_mut(space, addr, TensorMapEntry::blank())
    }

    pub fn get(&self, space: MemSpace, addr: u64) -> (r: Option<&TensorMapEntry>)
        requires
            self.wf(),
        ensures
            match r {
                Some(e) => self@.contains_key((space, addr)) && e@ == self@[(space, addr)],
                None => !self@.contains_key((space, addr)),
            },
    {
        self.entries.get(space, addr)
    }

    /// `tensormap.cp_fenceproxy`: materialize a copy of the named fields of
    /// the entry at `(src_space, src_addr)` at `(dst_space, dst_addr)`. `None`
    /// if there is no source entry yet.
    pub fn copy_entry(
        &mut self,
        dst_space: MemSpace,
        dst_addr: u64,
        src_space: MemSpace,
        src_addr: u64,
    ) -> (r: Option<()>)
        requires
            old(self).wf(),
        ensures
            final(self).wf(),
            if old(self)@.contains_key((src_space, src_addr)) {
                r is Some && final(self)@ == old(self)@.insert(
                    (dst_space, dst_addr),
                    old(self)@[(src_space, src_addr)],
                )
            } else {
                r is None && final(self)@ == old(self)@
            },
    {
        let src = match self.entries.get(src_space, src_addr) {
            Some(e) => e.copy(),
            None => {
                return None;
            },
        };
        proof {
            lemma_insert_fields(self.entries@, (dst_space, dst_addr));
        }
        self.entries.insert(dst_space, dst_addr, src);
        Some(())
    }
}

proof fn lemma_insert_fields(m: Map<(MemSpace, u64), TensorMapEntry>, k: (MemSpace, u64))
    ensures
        forall|e: TensorMapEntry|
            (#[trigger] m.insert(k, e)).map_values(|e: TensorMapEntry| e@) == m.map_values(
                |e: TensorMapEntry| e@,
            ).insert(k, e@),
{
    assert forall|e: TensorMapEntry|
        (#[trigger] m.insert(k, e)).map_values(|e: TensorMapEntry| e@) == m.map_values(
            |e: TensorMapEntry| e@,
        ).insert(k, e@) by {
        assert(m.insert(k, e).map_values(|e: TensorMapEntry| e@) =~= m.map_values(
            |e: TensorMapEntry| e@,
        ).insert(k, e@));
    }
}

pub open spec fn spec_to_mma_swizzle_mode(
    mode: TensorSwizzleMode,
    atomicity: TensorSwizzleAtomicity,
) -> Option<SwizzleMode> {
    match (mode, atomicity) {
        (TensorSwizzleMode::NoSwizzle, _) => Some(SwizzleMode::NoSwizzle),
        (TensorSwizzleMode::Swizzle32B, TensorSwizzleAtomicity::Atomicity16B) => Some(
            SwizzleMode::Swizzle32B,
        ),
        (TensorSwizzleMode::Swizzle64B, TensorSwizzleAtomicity::Atomicity16B) => Some(
            SwizzleMode::Swizzle64B,
        ),
        (TensorSwizzleMode::Swizzle128B, TensorSwizzleAtomicity::Atomicity16B) => Some(
            SwizzleMode::Swizzle128B,
        ),
        (TensorSwizzleMode::Swizzle128B, TensorSwizzleAtomicity::Atomicity32BWith8BFlip) => Some(
            SwizzleMode::Swizzle128BWith32BAtomicity,
        ),
        _ => None,
    }
}

/// Translate a tensor-map's swizzle fields into the matrix-descriptor swizzle
/// of the same byte permutation. Combinations without an equivalent return
/// `None`.
#[verifier::when_used_as_spec(spec_to_mma_swizzle_mode)]
pub fn to_mma_swizzle_mode(
    mode: TensorSwizzleMode,
    atomicity: TensorSwizzleAtomicity,
) -> (r: Option<SwizzleMode>)
    ensures
        r == spec_to_mma_swizzle_mode(mode, atomicity),
{
    match (mode, atomicity) {
        (TensorSwizzleMode::NoSwizzle, _) => Some(SwizzleMode::NoSwizzle),
        (TensorSwizzleMode::Swizzle32B, TensorSwizzleAtomicity::Atomicity16B) => Some(
            SwizzleMode::Swizzle32B,
        ),
        (TensorSwizzleMode::Swizzle64B, TensorSwizzleAtomicity::Atomicity16B) => Some(
            SwizzleMode::Swizzle64B,
        ),
        (TensorSwizzleMode::Swizzle128B, TensorSwizzleAtomicity::Atomicity16B) => Some(
            SwizzleMode::Swizzle128B,
        ),
        (TensorSwizzleMode::Swizzle128B, TensorSwizzleAtomicity::Atomicity32BWith8BFlip) => Some(
            SwizzleMode::Swizzle128BWith32BAtomicity,
        ),
        _ => None,
    }
}

/// A copied object is independent of its source: a later write to either is
/// not seen through the other.
pub proof fn copies_are_independent(
    m: Map<(MemSpace, u64), TensorMapFields>,
    dst: (MemSpace, u64),
    src: (MemSpace, u64),
    later: TensorMapFields,
)
    requires
        m.contains_key(src),
        dst != src,
    ensures
        m.insert(dst, m[src]).insert(src, later)[dst] == m[src],
        m.insert(dst, m[src]).insert(dst, later)[src] == m[src],
{
}

} // verus!
