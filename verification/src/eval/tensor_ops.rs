//! Tensor instructions of a single thread: tensor-map objects, bulk tensor
//! copies and `tcgen05.mma`.

use vstd::arithmetic::power2::lemma2_to64;
use vstd::prelude::*;
use std::collections::HashMap;

use crate::bit_field::{field, field_of};
use crate::canon::coeff::Coeff;
use crate::eval::ThreadId;
use crate::eval::arith::{ByteFormat, Step, byte_spec, decode_fp8_byte, unsupported};
use crate::eval::error::{AccessSite, Detail, EvalError, EvalResult};
use crate::eval::interp::Interpreter;
use crate::eval::machine::{Machine, Out, kind_mismatch, tcgen05_error, viewed};
use crate::eval::race::Proxy;
use crate::eval::tcgen05_mma::{
    InstructionDescriptor, Major, MatrixDescriptor, OperandFormat, SwizzleMode, addr_in_space,
    atom_cells, atom_shape, decode_instruction_descriptor, decode_matrix_descriptor,
    element_addr_in_space, k_dim, major_of, operand_addr, operand_element_addr,
    spec_instruction_descriptor, spec_matrix_descriptor,
};
use crate::eval::tensor_map_table::{
    FieldValue, TensorMapEntry, TensorMapFields, spec_to_mma_swizzle_mode, to_mma_swizzle_mode,
};
use crate::eval::tensor_memory::{LANES, TensorMemError, TensorState};
use crate::eval::value::Value;
use crate::lowered::{InstrId, MemSpace, Operand, Tcgen05MmaKind};
use crate::symbolic::ExprId;
use crate::symbolic::arena::{ExprArena, Exprs};
use crate::tensor_map::{TensorElemType, TensorFillMode, TensormapFieldWrite};

verus! {

broadcast use vstd::std_specs::hash::group_hash_axioms;

/// One dimension of a tensor and of a box in it.
#[derive(Debug, Clone, Copy, PartialEq, Eq, Structural)]
pub struct TensorDim {
    pub box_dim: u32,
    pub global_dim: u64,
    pub element_stride: u32,
}

/// The fields of a tensor-map object that concern all its dimensions.
#[derive(Debug, Clone, Copy, PartialEq, Eq, Structural)]
pub struct TensorHeader {
    pub elemtype: TensorElemType,
    pub mode: SwizzleMode,
    pub global_address: u64,
}

/// A copy of a box of a tensor.
#[derive(Debug, Clone, Copy, PartialEq, Eq, Structural)]
pub struct TileCopy {
    /// Where the box goes in shared memory.
    pub desc: MatrixDescriptor,
    pub elemtype: TensorElemType,
    /// Address of the tensor in global memory.
    pub source: u64,
    /// Elements of a row of the box.
    pub row: u32,
}

pub open spec fn spec_missing(t: ThreadId, pc: InstrId, field: &'static str) -> EvalError {
    EvalError::TensorMapFieldMissing { thread: t, pc, field }
}

/// A field that a tensor-map object lacks.
#[verifier::when_used_as_spec(spec_missing)]
pub fn missing(t: ThreadId, pc: InstrId, field: &'static str) -> (r: EvalError)
    ensures
        r == spec_missing(t, pc, field),
{
    EvalError::TensorMapFieldMissing { thread: t, pc, field }
}

/// The entry of one dimension.
pub open spec fn dim_at<V>(m: Map<u32, V>, d: int) -> Option<V> {
    if m.contains_key(d as u32) {
        Some(m[d as u32])
    } else {
        None
    }
}

fn lookup<V: Copy>(m: &HashMap<u32, V>, d: u32) -> (r: Option<V>)
    ensures
        r == dim_at(m@, d as int),
{
    match m.get(&d) {
        Some(v) => Some(*v),
        None => None,
    }
}

fn row_width(box0: u32, elem_bytes: u64) -> (r: u64)
    requires
        1 <= elem_bytes <= 8,
    ensures
        r == box0 * elem_bytes,
{
    assert(box0 * elem_bytes <= 0xFFFF_FFFF * 8) by (nonlinear_arith)
        requires
            0 <= box0 <= 0xFFFF_FFFF,
            1 <= elem_bytes <= 8,
    ;
    assert(box0 * elem_bytes >= 0) by (nonlinear_arith)
        requires
            box0 >= 0,
            elem_bytes >= 0,
    ;
    box0 as u64 * elem_bytes
}

fn overflows(a: u64, b: u64) -> (r: bool)
    ensures
        r == (a * b > u64::MAX),
{
    assert(0 <= a * b <= 0xFFFF_FFFF_FFFF_FFFF * 0xFFFF_FFFF_FFFF_FFFF) by (nonlinear_arith)
        requires
            0 <= a <= 0xFFFF_FFFF_FFFF_FFFF,
            0 <= b <= 0xFFFF_FFFF_FFFF_FFFF,
    ;
    a as u128 * b as u128 > u64::MAX as u128
}

/// The period of a swizzle pattern in shared memory, where a copy can follow
/// it.
pub open spec fn spec_pattern_bytes(mode: SwizzleMode) -> Option<u64> {
    match mode {
        SwizzleMode::Swizzle32B => Some(256),
        SwizzleMode::Swizzle64B => Some(512),
        SwizzleMode::Swizzle128B => Some(1024),
        _ => None,
    }
}

/// The period of a swizzle pattern in shared memory.
#[verifier::when_used_as_spec(spec_pattern_bytes)]
pub fn pattern_bytes(mode: SwizzleMode) -> (r: Option<u64>)
    ensures
        r == spec_pattern_bytes(mode),
        r matches Some(b) ==> b > 0,
{
    match mode {
        SwizzleMode::Swizzle32B => Some(256),
        SwizzleMode::Swizzle64B => Some(512),
        SwizzleMode::Swizzle128B => Some(1024),
        _ => None,
    }
}

/// Elements of a row of a box.
pub open spec fn spec_first_box(dims: Seq<TensorDim>) -> u32 {
    if dims.len() == 0 {
        1
    } else {
        dims[0].box_dim
    }
}

fn first_box(dims: &Vec<TensorDim>) -> (r: u32)
    ensures
        r == spec_first_box(dims@),
{
    if dims.len() == 0 {
        1
    } else {
        dims[0].box_dim
    }
}

/// A copy of a box into shared memory.
pub open spec fn spec_tile_of(dst: u64, pitch: u64, row: u32, header: TensorHeader) -> TileCopy {
    TileCopy {
        desc: MatrixDescriptor {
            start_addr: dst,
            leading_dim_byte_offset: 0,
            stride_dim_byte_offset: pitch,
            base_offset: 0,
            absolute_leading_stride: false,
            swizzle_mode: header.mode,
        },
        elemtype: header.elemtype,
        source: header.global_address,
        row,
    }
}

/// A copy of a box into shared memory.
#[verifier::when_used_as_spec(spec_tile_of)]
pub fn tile_of(dst: u64, pitch: u64, row: u32, header: TensorHeader) -> (r: TileCopy)
    ensures
        r == spec_tile_of(dst, pitch, row, header),
{
    TileCopy {
        desc: MatrixDescriptor {
            start_addr: dst,
            leading_dim_byte_offset: 0,
            stride_dim_byte_offset: pitch,
            base_offset: 0,
            absolute_leading_stride: false,
            swizzle_mode: header.mode,
        },
        elemtype: header.elemtype,
        source: header.global_address,
        row,
    }
}

/// Row and place in the row of a box's element.
pub open spec fn spec_tile_position(tile: TileCopy, linear: u64) -> (u64, u64) {
    if tile.row == 0 {
        (0, 0)
    } else {
        ((linear / tile.row as u64) as u64, (linear % tile.row as u64) as u64)
    }
}

/// Row and place in the row of a box's element.
#[verifier::when_used_as_spec(spec_tile_position)]
pub fn tile_position(tile: TileCopy, linear: u64) -> (r: (u64, u64))
    ensures
        r == spec_tile_position(tile, linear),
{
    if tile.row == 0 {
        (0, 0)
    } else {
        (linear / tile.row as u64, linear % tile.row as u64)
    }
}

/// What is left of an element's number once the first `d` dimensions of its
/// box are divided out.
pub open spec fn outer(dims: Seq<TensorDim>, linear: int, d: int) -> int
    decreases d,
{
    if d <= 0 {
        linear
    } else if dims[d - 1].box_dim == 0 {
        0
    } else {
        outer(dims, linear, d - 1) / (dims[d - 1].box_dim as int)
    }
}

/// Index of a box's element along dimension `d` of the box.
pub open spec fn box_index(dims: Seq<TensorDim>, linear: int, d: int) -> int {
    if dims[d].box_dim == 0 {
        0
    } else {
        outer(dims, linear, d) % (dims[d].box_dim as int)
    }
}

/// Index of a box's element along dimension `d` of the tensor.
pub open spec fn global_index(dims: Seq<TensorDim>, coords: Seq<i64>, linear: int, d: int) -> int {
    coords[d] + box_index(dims, linear, d) * dims[d].element_stride
}

/// Whether a box's element lies in the tensor, along the dimensions from `d`
/// on.
pub open spec fn inside(dims: Seq<TensorDim>, coords: Seq<i64>, linear: int, d: int) -> bool
    decreases dims.len() - d,
{
    if d >= dims.len() || d >= coords.len() {
        true
    } else {
        0 <= global_index(dims, coords, linear, d) < dims[d].global_dim && inside(
            dims,
            coords,
            linear,
            d + 1,
        )
    }
}

/// The bytes between neighbours along dimension `d` of the tensor.
pub open spec fn pitch_at(tile: TileCopy, strides: Seq<u64>, d: int) -> int {
    if d == 0 {
        tile.elemtype.byte_width() as int
    } else if d <= strides.len() {
        strides[d - 1] as int
    } else {
        0
    }
}

/// The address of a box's element in the tensor: `acc` plus what the
/// dimensions from `d` on contribute. None past the end of the address space.
pub open spec fn source_from(
    tile: TileCopy,
    dims: Seq<TensorDim>,
    strides: Seq<u64>,
    coords: Seq<i64>,
    linear: int,
    d: int,
    acc: int,
) -> Option<u64>
    decreases dims.len() - d,
{
    if acc > u64::MAX {
        None
    } else if d >= dims.len() || d >= coords.len() {
        Some(acc as u64)
    } else {
        source_from(
            tile,
            dims,
            strides,
            coords,
            linear,
            d + 1,
            acc + global_index(dims, coords, linear, d) * pitch_at(tile, strides, d),
        )
    }
}

/// What is left of an element's number, and its index along the tensor's
/// dimension `d`.
fn index_along(
    dims: &Vec<TensorDim>,
    coords: &Vec<i64>,
    d: usize,
    rem: u64,
    Ghost(linear): Ghost<int>,
) -> (r:
    (u64, i128))
    requires
        d < dims@.len(),
        d < coords@.len(),
        rem == outer(dims@, linear, d as int),
    ensures
        r.0 == outer(dims@, linear, d + 1),
        r.1 == global_index(dims@, coords@, linear, d as int),
        -0x1_0000_0000_0000_0000 <= r.1 <= 0x2_0000_0000_0000_0000,
{
    let size: u64 = dims[d].box_dim as u64;
    let (rest, index): (u64, u64) = if size == 0 {
        (0, 0)
    } else {
        (rem / size, rem % size)
    };
    let stride: u32 = dims[d].element_stride;
    assert(0 <= index * stride <= 0xFFFF_FFFF * 0xFFFF_FFFF) by (nonlinear_arith)
        requires
            0 <= index <= 0xFFFF_FFFF,
            0 <= stride <= 0xFFFF_FFFF,
    ;
    (rest, coords[d] as i128 + index as i128 * stride as i128)
}

fn is_inside(dims: &Vec<TensorDim>, coords: &Vec<i64>, linear: u64) -> (r: bool)
    ensures
        r == inside(dims@, coords@, linear as int, 0),
{
    let mut rem: u64 = linear;
    let mut d: usize = 0;
    while d < dims.len() && d < coords.len()
        invariant
            d <= dims@.len(),
            d <= coords@.len(),
            rem == outer(dims@, linear as int, d as int),
            inside(dims@, coords@, linear as int, 0) == inside(
                dims@,
                coords@,
                linear as int,
                d as int,
            ),
        decreases dims@.len() - d,
    {
        let (rest, index) = index_along(dims, coords, d, rem, Ghost(linear as int));
        if index < 0 || index >= dims[d].global_dim as i128 {
            return false;
        }
        rem = rest;
        d = d + 1;
    }
    true
}

/// Computes the address of a box's element that lies in the tensor.
fn source_addr(
    tile: TileCopy,
    dims: &Vec<TensorDim>,
    strides: &Vec<u64>,
    coords: &Vec<i64>,
    linear: u64,
) -> (r: Option<u64>)
    requires
        inside(dims@, coords@, linear as int, 0),
    ensures
        r == source_from(
            tile,
            dims@,
            strides@,
            coords@,
            linear as int,
            0,
            tile.source as int,
        ),
{
    let mut acc: u64 = tile.source;
    let mut rem: u64 = linear;
    let mut d: usize = 0;
    while d < dims.len() && d < coords.len()
        invariant
            d <= dims@.len(),
            d <= coords@.len(),
            rem == outer(dims@, linear as int, d as int),
            inside(dims@, coords@, linear as int, d as int),
            source_from(tile, dims@, strides@, coords@, linear as int, 0, tile.source as int)
                == source_from(
                tile,
                dims@,
                strides@,
                coords@,
                linear as int,
                d as int,
                acc as int,
            ),
        decreases dims@.len() - d,
    {
        let (rest, index) = index_along(dims, coords, d, rem, Ghost(linear as int));
        let pitch: u64 = if d == 0 {
            tile.elemtype.byte_width() as u64
        } else if d <= strides.len() {
            strides[d - 1]
        } else {
            0
        };
        let place: u64 = index as u64;
        assert(place == global_index(dims@, coords@, linear as int, d as int));
        assert(pitch == pitch_at(tile, strides@, d as int));
        assert(0 <= place * pitch <= 0xFFFF_FFFF_FFFF_FFFF * 0xFFFF_FFFF_FFFF_FFFF)
            by (nonlinear_arith)
            requires
                0 <= place <= 0xFFFF_FFFF_FFFF_FFFF,
                0 <= pitch <= 0xFFFF_FFFF_FFFF_FFFF,
        ;
        let next: u128 = acc as u128 + place as u128 * pitch as u128;
        if next > u64::MAX as u128 {
            assert(source_from(
                tile,
                dims@,
                strides@,
                coords@,
                linear as int,
                d + 1,
                next as int,
            ) is None);
            return None;
        }
        acc = next as u64;
        rem = rest;
        d = d + 1;
    }
    Some(acc)
}

/// Everything a bulk copy reads from a tensor-map object.
pub open spec fn tile_plan(t: ThreadId, pc: InstrId, entry: TensorMapFields, coords: u64) -> Result<
    (TensorHeader, Seq<TensorDim>, Seq<u64>),
    EvalError,
> {
    match header_spec(t, pc, entry, coords) {
        Err(e) => Err(e),
        Ok(header) => match dims_spec(t, pc, entry, coords as u32, Seq::empty(), 0) {
            Err(e) => Err(e),
            Ok(dims) => match strides_spec(t, pc, entry, (coords - 1) as u32, Seq::empty(), 0) {
                Err(e) => Err(e),
                Ok(strides) => Ok((header, dims, strides)),
            },
        },
    }
}

/// Whether the mask of disabled lanes holds the lane.
pub open spec fn lane_disabled(masks: Seq<u32>, lane: u32) -> bool {
    lane / 32 < masks.len() && (masks[(lane / 32) as int] >> (lane % 32)) & 1 != 0
}

fn is_disabled(masks: &Vec<u32>, lane: u32) -> (r: bool)
    ensures
        r == lane_disabled(masks@, lane),
{
    let i: usize = (lane / 32) as usize;
    i < masks.len() && (masks[i] >> (lane % 32)) & 1 != 0
}

/// `acc + sum of a[i + j] * b[k + j]` for `j` from `from` to `n`, built by
/// fused multiply-adds.
pub open spec fn dot_product(
    s: Exprs,
    a: Seq<ExprId>,
    b: Seq<ExprId>,
    i: int,
    k: int,
    from: int,
    n: int,
    acc: ExprId,
) -> (Exprs, ExprId)
    decreases n - from,
{
    if from >= n {
        (s, acc)
    } else {
        let (s1, x) = s.fused(a[i + from], b[k + from], acc);
        dot_product(s1, a, b, i, k, from + 1, n, x)
    }
}

fn dot(
    arena: &mut ExprArena,
    a: &Vec<ExprId>,
    b: &Vec<ExprId>,
    i: usize,
    k: usize,
    n: usize,
    seed: ExprId,
) -> (r: ExprId)
    requires
        old(arena).wf(),
        i + n <= a@.len(),
        k + n <= b@.len(),
    ensures
        final(arena).wf(),
        (final(arena)@, r) == dot_product(
            old(arena)@,
            a@,
            b@,
            i as int,
            k as int,
            0,
            n as int,
            seed,
        ),
{
    let mut acc: ExprId = seed;
    let mut j: usize = 0;
    while j < n
        invariant
            arena.wf(),
            j <= n,
            i + n <= a.len(),
            k + n <= b.len(),
            dot_product(old(arena)@, a@, b@, i as int, k as int, 0, n as int, seed) == dot_product(
                arena@,
                a@,
                b@,
                i as int,
                k as int,
                j as int,
                n as int,
                acc,
            ),
        decreases n - j,
    {
        acc = arena.fma(a[i + j], b[k + j], acc);
        j = j + 1;
    }
    acc
}

fn start_of(row: u64, k_dim: u64, len: u64) -> (r: u64)
    requires
        row * k_dim + k_dim <= len,
        k_dim >= 1,
    ensures
        r == row * k_dim,
{
    assert(row * k_dim >= 0) by (nonlinear_arith)
        requires
            row >= 0,
            k_dim >= 0,
    ;
    row * k_dim
}

proof fn lemma_row_fits(row: int, rows: int, k: int)
    requires
        row < rows,
        k == 16 || k == 32,
    ensures
        row * k + k <= rows * k,
{
    assert(row * k + k <= rows * k) by (nonlinear_arith)
        requires
            row + 1 <= rows,
            k > 0,
    ;
}

proof fn lemma_columns_bound(idesc: u32)
    ensures
        spec_instruction_descriptor(idesc).n <= 504,
{
    lemma2_to64();
    assert(field_of(idesc as nat, 17, 6) < 64);
}

proof fn lemma_elements_bound(rows: u32, kind: Tcgen05MmaKind)
    requires
        rows <= 512,
    ensures
        0 <= rows * k_dim(kind) <= 512 * 32,
{
    let k = k_dim(kind);
    assert(0 <= rows * k <= 512 * 32) by (nonlinear_arith)
        requires
            0 <= rows <= 512,
            k == 16 || k == 32,
    ;
}

/// A matrix descriptor, or the error of an invalid one.
pub open spec fn matrix_spec(
    pc: InstrId,
    raw: u64,
    operand: &'static str,
) -> Result<MatrixDescriptor, EvalError> {
    match spec_matrix_descriptor(raw) {
        Err(encoding) => {
            Err(EvalError::Unsupported { pc, what: Detail::MmaSwizzle { operand, encoding } })
        },
        Ok(desc) => {
            Ok(desc)
        },
    }
}

/// The per-dimension fields of a tensor-map object from the `d`-th on.
pub open spec fn dims_spec(
    t: ThreadId,
    pc: InstrId,
    entry: TensorMapFields,
    rank: u32,
    dims: Seq<TensorDim>,
    d: int,
) -> Result<Seq<TensorDim>, EvalError>
    decreases rank - d,
{
    if d >= rank {
        Ok(dims)
    } else {
        match dim_at(entry.box_dim, d) {
            None => Err(missing(t, pc, "box_dim")),
            Some(box_dim) => {
                match dim_at(entry.global_dim, d) {
                    None => Err(missing(t, pc, "global_dim")),
                    Some(global_dim) => {
                        match dim_at(entry.element_stride, d) {
                            None => Err(missing(t, pc, "element_stride")),
                            Some(element_stride) => {
                                dims_spec(
                                    t,
                                    pc,
                                    entry,
                                    rank,
                                    dims.push(TensorDim { box_dim, global_dim, element_stride }),
                                    d + 1,
                                )
                            },
                        }
                    },
                }
            },
        }
    }
}

/// The strides of a tensor-map object between its dimensions from the
/// `d`-th on.
pub open spec fn strides_spec(
    t: ThreadId,
    pc: InstrId,
    entry: TensorMapFields,
    n: u32,
    strides: Seq<u64>,
    d: int,
) -> Result<Seq<u64>, EvalError>
    decreases n - d,
{
    if d >= n {
        Ok(strides)
    } else {
        match dim_at(entry.global_stride, d) {
            None => Err(missing(t, pc, "global_stride")),
            Some(stride) => {
                strides_spec(t, pc, entry, n, strides.push(stride), d + 1)
            },
        }
    }
}

/// The fields of a tensor-map object that concern all its dimensions.
pub open spec fn header_spec(
    t: ThreadId,
    pc: InstrId,
    entry: TensorMapFields,
    coords: u64,
) -> Result<TensorHeader, EvalError> {
    match entry.rank {
        None => Err(missing(t, pc, "rank")),
        Some(rank) => {
            if rank + 1 != coords {
                Err(
                    EvalError::Unsupported {
                        pc,
                        what: Detail::TensorRank { rank: (rank + 1) as u64, coords },
                    },
                )
            } else {
                match entry.elemtype {
                    None => Err(missing(t, pc, "elemtype")),
                    Some(elemtype) => {
                        match entry.fill_mode {
                            None => Err(missing(t, pc, "fill_mode")),
                            Some(fill_mode) => {
                                if fill_mode != TensorFillMode::Zero {
                                    Err(
                                        unsupported(
                                            pc,
                                            "cp.async.bulk.tensor: OOB-NaN fill mode not modeled (Volta's expression arena cannot represent a literal NaN constant)",
                                        ),
                                    )
                                } else {
                                    match entry.swizzle_mode {
                                        None => Err(missing(t, pc, "swizzle_mode")),
                                        Some(swizzle) => {
                                            match entry.swizzle_atomicity {
                                                None => Err(missing(t, pc, "swizzle_atomicity")),
                                                Some(atomicity) => {
                                                    match spec_to_mma_swizzle_mode(swizzle, atomicity) {
                                                        None => Err(
                                                            EvalError::Unsupported {
                                                                pc,
                                                                what: Detail::TensorSwizzle {
                                                                    swizzle,
                                                                    atomicity,
                                                                },
                                                            },
                                                        ),
                                                        Some(mode) => {
                                                            match entry.global_address {
                                                                None => Err(
                                                                    missing(
                                                                        t,
                                                                        pc,
                                                                        "global_address",
                                                                    ),
                                                                ),
                                                                Some(global_address) => {
                                                                    Ok(
                                                                        TensorHeader {
                                                                            elemtype,
                                                                            mode,
                                                                            global_address,
                                                                        },
                                                                    )
                                                                },
                                                            }
                                                        },
                                                    }
                                                },
                                            }
                                        },
                                    }
                                }
                            },
                        }
                    },
                }
            }
        },
    }
}

/// The stride offset of a tile in shared memory: its row width without a
/// swizzle, else the footprint of a swizzle atom, in which the row has to
/// fit.
pub open spec fn pitch_spec(
    pc: InstrId,
    dst: u64,
    box0: u32,
    elem_bytes: u64,
    mode: SwizzleMode,
) -> Result<u64, EvalError> {
    let row_bytes = (box0 * elem_bytes) as u64;
    if mode == SwizzleMode::NoSwizzle {
        Ok(row_bytes)
    } else {
        if row_bytes % 16 != 0 {
            Err(
                EvalError::Unsupported {
                    pc,
                    what: Detail::TensorCells { elements: box0, bytes: row_bytes },
                },
            )
        } else {
            let cells = (row_bytes / 16) as u64;
            let atom = atom_cells(mode) as u64;
            if cells > atom {
                Err(EvalError::Unsupported { pc, what: Detail::TensorAtom { cells, mode, atom } })
            } else {
                match pattern_bytes(mode) {
                    None => Err(EvalError::Unsupported { pc, what: Detail::TensorMode { mode } }),
                    Some(bytes) => {
                        if dst % bytes != 0 {
                            Err(
                                EvalError::Unsupported {
                                    pc,
                                    what: Detail::TensorAlignment { addr: dst, mode, atom: bytes },
                                },
                            )
                        } else {
                            Ok(bytes)
                        }
                    },
                }
            }
        }
    }
}

/// The elements of a box, from its `k`-th dimension on.
pub open spec fn volume_spec(
    pc: InstrId,
    dims: Seq<TensorDim>,
    volume: u64,
    k: int,
) -> Result<u64, EvalError>
    decreases dims.len() - k,
{
    if k >= dims.len() {
        Ok(volume)
    } else {
        if volume * dims[k].box_dim > u64::MAX {
            Err(unsupported(pc, "cp.async.bulk.tensor: box too large"))
        } else {
            volume_spec(pc, dims, (volume * dims[k].box_dim) as u64, k + 1)
        }
    }
}

/// A matrix descriptor, or the error of an invalid one.
pub fn matrix_desc(
    pc: InstrId,
    raw: u64,
    operand: &'static str,
) -> (r: Result<MatrixDescriptor, EvalError>)
    ensures
        r == matrix_spec(pc, raw, operand),
{
    match decode_matrix_descriptor(raw) {
        Err(encoding) => {
            Err(EvalError::Unsupported { pc, what: Detail::MmaSwizzle { operand, encoding } })
        },
        Ok(desc) => {
            Ok(desc)
        },
    }
}

/// The per-dimension fields of a tensor-map object from the `d`-th on.
pub fn read_dims(
    t: ThreadId,
    pc: InstrId,
    entry: &TensorMapEntry,
    rank: u32,
) -> (r: Result<Vec<TensorDim>, EvalError>)
    ensures
        viewed(r) == dims_spec(t, pc, entry@, rank, Seq::empty(), 0),
{
    let mut dims: Vec<TensorDim> = Vec::new();
    let mut d: u32 = 0;
    while d < rank
        invariant
            d <= rank,
            dims_spec(t, pc, entry@, rank, Seq::empty(), 0) == dims_spec(
                t,
                pc,
                entry@,
                rank,
                dims@,
                d as int,
            ),
        decreases rank - d,
    {
        let box_dim = match lookup(&entry.box_dim, d) {
            None => {
                return Err(missing(t, pc, "box_dim"));
            },
            Some(v) => v,
        };
        let global_dim = match lookup(&entry.global_dim, d) {
            None => {
                return Err(missing(t, pc, "global_dim"));
            },
            Some(v) => v,
        };
        let element_stride = match lookup(&entry.element_stride, d) {
            None => {
                return Err(missing(t, pc, "element_stride"));
            },
            Some(v) => v,
        };
        dims.push(TensorDim { box_dim, global_dim, element_stride });
        d = d + 1;
    }
    Ok(dims)
}

/// The strides of a tensor-map object between its dimensions from the
/// `d`-th on.
pub fn read_strides(
    t: ThreadId,
    pc: InstrId,
    entry: &TensorMapEntry,
    n: u32,
) -> (r: Result<Vec<u64>, EvalError>)
    ensures
        viewed(r) == strides_spec(t, pc, entry@, n, Seq::empty(), 0),
{
    let mut strides: Vec<u64> = Vec::new();
    let mut d: u32 = 0;
    while d < n
        invariant
            d <= n,
            strides_spec(t, pc, entry@, n, Seq::empty(), 0) == strides_spec(
                t,
                pc,
                entry@,
                n,
                strides@,
                d as int,
            ),
        decreases n - d,
    {
        let stride = match lookup(&entry.global_stride, d) {
            None => {
                return Err(missing(t, pc, "global_stride"));
            },
            Some(v) => v,
        };
        strides.push(stride);
        d = d + 1;
    }
    Ok(strides)
}

/// The fields of a tensor-map object that concern all its dimensions.
pub fn read_header(
    t: ThreadId,
    pc: InstrId,
    entry: &TensorMapEntry,
    coords: u64,
) -> (r: Result<TensorHeader, EvalError>)
    ensures
        r == header_spec(t, pc, entry@, coords),
{
    let rank = match entry.rank {
        None => {
            return Err(missing(t, pc, "rank"));
        },
        Some(v) => v,
    };
    if rank as u64 + 1 != coords {
        return Err(
            EvalError::Unsupported {
                pc,
                what: Detail::TensorRank { rank: rank as u64 + 1, coords },
            },
        );
    }
    let elemtype = match entry.elemtype {
        None => {
            return Err(missing(t, pc, "elemtype"));
        },
        Some(v) => v,
    };
    let fill_mode = match entry.fill_mode {
        None => {
            return Err(missing(t, pc, "fill_mode"));
        },
        Some(v) => v,
    };
    if fill_mode != TensorFillMode::Zero {
        return Err(
            unsupported(
                pc,
                "cp.async.bulk.tensor: OOB-NaN fill mode not modeled (Volta's expression arena cannot represent a literal NaN constant)",
            ),
        );
    }
    let swizzle = match entry.swizzle_mode {
        None => {
            return Err(missing(t, pc, "swizzle_mode"));
        },
        Some(v) => v,
    };
    let atomicity = match entry.swizzle_atomicity {
        None => {
            return Err(missing(t, pc, "swizzle_atomicity"));
        },
        Some(v) => v,
    };
    let mode = match to_mma_swizzle_mode(swizzle, atomicity) {
        None => {
            return Err(
                EvalError::Unsupported { pc, what: Detail::TensorSwizzle { swizzle, atomicity } },
            );
        },
        Some(v) => v,
    };
    let global_address = match entry.global_address {
        None => {
            return Err(missing(t, pc, "global_address"));
        },
        Some(v) => v,
    };
    Ok(TensorHeader { elemtype, mode, global_address })
}

/// The stride offset of a tile in shared memory: its row width without a
/// swizzle, else the footprint of a swizzle atom, in which the row has to
/// fit.
pub fn row_pitch(
    pc: InstrId,
    dst: u64,
    box0: u32,
    elem_bytes: u64,
    mode: SwizzleMode,
) -> (r: Result<u64, EvalError>)
    requires
        1 <= elem_bytes <= 8,
    ensures
        r == pitch_spec(pc, dst, box0, elem_bytes, mode),
{
    let row_bytes: u64 = row_width(box0, elem_bytes);
    if mode == SwizzleMode::NoSwizzle {
        Ok(row_bytes)
    } else {
        if row_bytes % 16 != 0 {
            return Err(
                EvalError::Unsupported {
                    pc,
                    what: Detail::TensorCells { elements: box0, bytes: row_bytes },
                },
            );
        }
        let cells: u64 = row_bytes / 16;
        let atom: u64 = atom_shape(mode).1;
        if cells > atom {
            return Err(
                EvalError::Unsupported { pc, what: Detail::TensorAtom { cells, mode, atom } },
            );
        }
        let bytes = match pattern_bytes(mode) {
            None => {
                return Err(EvalError::Unsupported { pc, what: Detail::TensorMode { mode } });
            },
            Some(v) => v,
        };
        if dst % bytes != 0 {
            return Err(
                EvalError::Unsupported {
                    pc,
                    what: Detail::TensorAlignment { addr: dst, mode, atom: bytes },
                },
            );
        }
        Ok(bytes)
    }
}

/// The elements of a box, from its `k`-th dimension on.
pub fn box_volume(pc: InstrId, dims: &Vec<TensorDim>) -> (r: Result<u64, EvalError>)
    ensures
        r == volume_spec(pc, dims@, 1, 0),
{
    let mut volume: u64 = 1;
    let mut k: usize = 0;
    while k < dims.len()
        invariant
            k <= dims@.len(),
            volume_spec(pc, dims@, 1, 0) == volume_spec(pc, dims@, volume, k as int),
        decreases dims@.len() - k,
    {
        if overflows(volume, dims[k].box_dim as u64) {
            return Err(unsupported(pc, "cp.async.bulk.tensor: box too large"));
        }
        assert(
            volume * dims@[k as int].box_dim >= 0
        ) by (nonlinear_arith) requires volume >= 0, dims@[k as int].box_dim >= 0;
        volume = volume * dims[k].box_dim as u64;
        k = k + 1;
    }
    Ok(volume)
}

/// An operand element read from shared memory: a concrete byte is decoded,
/// anything else already is its value.
pub open spec fn operand_value_spec(
    s: Exprs,
    pc: InstrId,
    format: OperandFormat,
    e: ExprId,
) -> Step<ExprId> {
    match (format, s.as_int(e)) {
        (OperandFormat::E4m3, Some(raw)) => {
            byte_spec(s, pc, "tcgen05.mma e4m3", raw as u8, ByteFormat::E4m3)
        },
        (OperandFormat::E5m2, Some(raw)) => {
            byte_spec(s, pc, "tcgen05.mma e5m2", raw as u8, ByteFormat::E5m2)
        },
        _ => {
            (s, Ok(e))
        },
    }
}

/// An operand element read from shared memory: a concrete byte is decoded,
/// anything else already is its value.
pub fn decode_operand(
    arena: &mut ExprArena,
    pc: InstrId,
    format: OperandFormat,
    e: ExprId,
) -> (r: Result<ExprId, EvalError>)
    requires
        old(arena).wf(),
    ensures
        final(arena).wf(),
        (final(arena)@, r) == operand_value_spec(old(arena)@, pc, format, e),
{
    match (format, arena.as_i64(e)) {
        (OperandFormat::E4m3, Some(raw)) => {
            decode_fp8_byte(arena, pc, "tcgen05.mma e4m3", raw as u8, ByteFormat::E4m3)
        },
        (OperandFormat::E5m2, Some(raw)) => {
            decode_fp8_byte(arena, pc, "tcgen05.mma e5m2", raw as u8, ByteFormat::E5m2)
        },
        _ => {
            Ok(e)
        },
    }
}

impl Machine {
    pub open spec fn with_tensor(self, tensor: TensorState) -> Machine {
        Machine { tensor, ..self }
    }

    /// A tensor-map object's fields so far.
    pub open spec fn map_at(self, space: MemSpace, addr: u64) -> TensorMapFields {
        if self.maps.contains_key((space, addr)) {
            self.maps[(space, addr)]
        } else {
            TensorMapFields::blank()
        }
    }

    /// A read of a Tensor Memory cell.
    pub open spec fn tensor_cell(
        self,
        lane: u32,
        col: u32,
    ) -> Result<Option<ExprId>, TensorMemError> {
        if self.tensor.is_live(col) {
            Ok(self.tensor.get(lane, col))
        } else {
            Err(TensorMemError::NotAllocated { lane, col })
        }
    }

    /// A 32-bit field value.
    #[verifier::opaque]
    pub open spec fn field_u32(
        self,
        t: ThreadId,
        pc: InstrId,
        op: Operand,
        what: &'static str,
        field: &'static str,
    ) -> Out<u32> {
        match self.concrete_operand(t, pc, op, what) {
            (m, Err(e)) => (m, Err(e)),
            (m, Ok(v)) => {
                if v < 0 || v > 0xFFFF_FFFF {
                    (
                        m,
                        Err(
                            EvalError::Unsupported {
                                pc,
                                what: Detail::FieldOutOfRange { field, value: v },
                            },
                        ),
                    )
                } else {
                    (m, Ok(v as u32))
                }
            },
        }
    }

    /// A 64-bit field value.
    #[verifier::opaque]
    pub open spec fn field_u64(
        self,
        t: ThreadId,
        pc: InstrId,
        op: Operand,
        what: &'static str,
        field: &'static str,
    ) -> Out<u64> {
        match self.concrete_operand(t, pc, op, what) {
            (m, Err(e)) => (m, Err(e)),
            (m, Ok(v)) => {
                if v < 0 {
                    (
                        m,
                        Err(
                            EvalError::Unsupported {
                                pc,
                                what: Detail::FieldOutOfRange { field, value: v },
                            },
                        ),
                    )
                } else {
                    (m, Ok(v as u64))
                }
            },
        }
    }

    /// The value a field write stores.
    #[verifier::opaque]
    pub open spec fn field_value(
        self,
        t: ThreadId,
        pc: InstrId,
        field: TensormapFieldWrite,
    ) -> Out<FieldValue> {
        match field {
            TensormapFieldWrite::GlobalAddress(op) => {
                match self.concrete_operand(t, pc, op, "tensormap .global_address") {
                    (m, Err(e)) => (m, Err(e)),
                    (m, Ok(v)) => {
                        (m, Ok(FieldValue::GlobalAddress(v as u64)))
                    },
                }
            },
            TensormapFieldWrite::Rank(op) => {
                match self.field_u32(t, pc, op, "tensormap .rank", "rank") {
                    (m, Err(e)) => (m, Err(e)),
                    (m, Ok(v)) => {
                        (m, Ok(FieldValue::Rank(v)))
                    },
                }
            },
            TensormapFieldWrite::BoxDim { ord, new_val } => {
                match self.field_u32(t, pc, new_val, "tensormap .box_dim", "box_dim") {
                    (m, Err(e)) => (m, Err(e)),
                    (m, Ok(v)) => {
                        (m, Ok(FieldValue::BoxDim(ord, v)))
                    },
                }
            },
            TensormapFieldWrite::GlobalDim { ord, new_val } => {
                match self.field_u64(t, pc, new_val, "tensormap .global_dim", "global_dim") {
                    (m, Err(e)) => (m, Err(e)),
                    (m, Ok(v)) => {
                        (m, Ok(FieldValue::GlobalDim(ord, v)))
                    },
                }
            },
            TensormapFieldWrite::GlobalStride { ord, new_val } => {
                match self.field_u64(t, pc, new_val, "tensormap .global_stride", "global_stride") {
                    (m, Err(e)) => (m, Err(e)),
                    (m, Ok(v)) => {
                        (m, Ok(FieldValue::GlobalStride(ord, v)))
                    },
                }
            },
            TensormapFieldWrite::ElementStride { ord, new_val } => {
                match self.field_u32(
                    t,
                    pc,
                    new_val,
                    "tensormap .element_stride",
                    "element_stride",
                ) {
                    (m, Err(e)) => (m, Err(e)),
                    (m, Ok(v)) => {
                        (m, Ok(FieldValue::ElementStride(ord, v)))
                    },
                }
            },
            TensormapFieldWrite::Elemtype(v) => {
                (self, Ok(FieldValue::Elemtype(v)))
            },
            TensormapFieldWrite::InterleaveLayout(v) => {
                (self, Ok(FieldValue::InterleaveLayout(v)))
            },
            TensormapFieldWrite::SwizzleMode(v) => {
                (self, Ok(FieldValue::SwizzleMode(v)))
            },
            TensormapFieldWrite::SwizzleAtomicity(v) => {
                (self, Ok(FieldValue::SwizzleAtomicity(v)))
            },
            TensormapFieldWrite::FillMode(v) => {
                (self, Ok(FieldValue::FillMode(v)))
            },
        }
    }

    /// `tensormap.replace`: writes one field of a tensor-map object.
    #[verifier::opaque]
    pub open spec fn tensormap_replace(
        self,
        t: ThreadId,
        pc: InstrId,
        space: MemSpace,
        base: Operand,
        offset: i64,
        field: TensormapFieldWrite,
    ) -> Out<()> {
        match self.effective_addr(t, pc, base, offset) {
            (m, Err(e)) => (m, Err(e)),
            (m, Ok(addr)) => {
                match m.field_value(t, pc, field) {
                    (m, Err(e)) => (m, Err(e)),
                    (m, Ok(v)) => {
                        let m = m.with_maps(
                            m.maps.insert((space, addr), m.map_at(space, addr).with_field(v)),
                        );
                        (m, Ok(()))
                    },
                }
            },
        }
    }

    /// The coordinates of a tile from the `k`-th on.
    pub open spec fn tensor_coords(
        self,
        t: ThreadId,
        pc: InstrId,
        coords: Seq<Operand>,
        values: Seq<i64>,
        k: int,
    ) -> Out<Seq<i64>>
        decreases coords.len() - k,
    {
        if k >= coords.len() {
            (self, Ok(values))
        } else {
            match self.concrete_operand(t, pc, coords[k], "cp.async.bulk.tensor tensorCoords") {
                (m, Err(e)) => (m, Err(e)),
                (m, Ok(v)) => {
                    m.tensor_coords(t, pc, coords, values.push(v), k + 1)
                },
            }
        }
    }

    /// The value of a tile's element: read from global memory inside the
    /// tensor, zero outside it.
    #[verifier::opaque]
    pub open spec fn tile_value(
        self,
        t: ThreadId,
        pc: InstrId,
        tile: TileCopy,
        dims: Seq<TensorDim>,
        strides: Seq<u64>,
        coords: Seq<i64>,
        linear: u64,
    ) -> Out<Value> {
        if inside(dims, coords, linear as int, 0) {
            match source_from(tile, dims, strides, coords, linear as int, 0, tile.source as int) {
                None => (
                    self,
                    Err(
                        unsupported(
                            pc,
                            "cp.async.bulk.tensor: source past the end of the address space",
                        ),
                    ),
                ),
                Some(addr) => {
                    self.mem_read(t, pc, MemSpace::Global, addr, tile.elemtype.byte_width() as u64)
                },
            }
        } else {
            if tile.elemtype.is_float() {
                let (s, zero) = self.exprs.real_const(Coeff::spec_zero());
                let m = self.with_exprs(s);
                (m, Ok(Value::Scalar(zero)))
            } else {
                let (s, zero) = self.exprs.int_const(0);
                let m = self.with_exprs(s);
                (m, Ok(Value::Scalar(zero)))
            }
        }
    }

    /// Copies one element of a tile into shared memory, through the
    /// asynchronous proxy on targets that have one.
    #[verifier::opaque]
    pub open spec fn tile_element(
        self,
        t: ThreadId,
        pc: InstrId,
        tile: TileCopy,
        dims: Seq<TensorDim>,
        strides: Seq<u64>,
        coords: Seq<i64>,
        linear: u64,
    ) -> Out<()> {
        match self.tile_value(t, pc, tile, dims, strides, coords, linear) {
            (m, Err(e)) => (m, Err(e)),
            (m, Ok(v)) => {
                let at = tile_position(tile, linear);
                let bytes = tile.elemtype.byte_width() as u64;
                match addr_in_space(tile.desc, at.0 as nat, at.1 as nat, bytes as nat) {
                    None => (
                        m,
                        Err(
                            unsupported(
                                pc,
                                "cp.async.bulk.tensor: destination past the end of the address space",
                            ),
                        ),
                    ),
                    Some(dst) => {
                        match m.mem_write(t, pc, MemSpace::Shared, dst, bytes, v) {
                            (m, Err(e)) => (m, Err(e)),
                            (m, Ok(_)) => {
                                if m.env.features.async_proxy_fence {
                                    let m = m.with_race(
                                        m.race.mark_async(
                                            MemSpace::Shared,
                                            dst,
                                            dst + bytes,
                                            AccessSite { thread: t, pc, is_write: true },
                                        ),
                                    );
                                    (m, Ok(()))
                                } else {
                                    (m, Ok(()))
                                }
                            },
                        }
                    },
                }
            },
        }
    }

    /// Copies the elements of a tile from the `linear`-th on.
    pub open spec fn tile_elements(
        self,
        t: ThreadId,
        pc: InstrId,
        tile: TileCopy,
        dims: Seq<TensorDim>,
        strides: Seq<u64>,
        coords: Seq<i64>,
        total: u64,
        linear: int,
    ) -> Out<()>
        decreases total - linear,
    {
        if linear >= total {
            (self, Ok(()))
        } else {
            match self.tile_element(t, pc, tile, dims, strides, coords, linear as u64) {
                (m, Err(e)) => (m, Err(e)),
                (m, Ok(_)) => {
                    m.tile_elements(t, pc, tile, dims, strides, coords, total, linear + 1)
                },
            }
        }
    }

    /// Copies a tile and returns its size in bytes.
    #[verifier::opaque]
    pub open spec fn tensor_tile(
        self,
        t: ThreadId,
        pc: InstrId,
        dst: u64,
        header: TensorHeader,
        dims: Seq<TensorDim>,
        strides: Seq<u64>,
        coords: Seq<Operand>,
    ) -> Out<u64> {
        let bytes = header.elemtype.byte_width() as u64;
        let box0 = spec_first_box(dims);
        match pitch_spec(pc, dst, box0, bytes, header.mode) {
            Err(e) => (self, Err(e)),
            Ok(pitch) => {
                match self.tensor_coords(t, pc, coords, Seq::empty(), 0) {
                    (m, Err(e)) => (m, Err(e)),
                    (m, Ok(values)) => {
                        match volume_spec(pc, dims, 1, 0) {
                            Err(e) => (m, Err(e)),
                            Ok(total) => {
                                let tile = tile_of(dst, pitch, box0, header);
                                match m.tile_elements(
                                    t,
                                    pc,
                                    tile,
                                    dims,
                                    strides,
                                    values,
                                    total,
                                    0,
                                ) {
                                    (m, Err(e)) => (m, Err(e)),
                                    (m, Ok(_)) => {
                                        if total * bytes > u64::MAX {
                                            (
                                                m,
                                                Err(
                                                    unsupported(
                                                        pc,
                                                        "cp.async.bulk.tensor: box too large",
                                                    ),
                                                ),
                                            )
                                        } else {
                                            (m, Ok((total * bytes) as u64))
                                        }
                                    },
                                }
                            },
                        }
                    },
                }
            },
        }
    }

    /// `cp.async.bulk.tensor`: copies a tile of a tensor from global to shared
    /// memory and completes its bytes on an mbarrier.
    #[verifier::opaque]
    pub open spec fn bulk_tensor_load(
        self,
        t: ThreadId,
        pc: InstrId,
        dst_base: Operand,
        dst_offset: i64,
        map_space: MemSpace,
        map_base: Operand,
        map_offset: i64,
        coords: Seq<Operand>,
        mbar_base: Operand,
        mbar_offset: i64,
    ) -> Out<()> {
        match self.effective_addr(t, pc, dst_base, dst_offset) {
            (m, Err(e)) => (m, Err(e)),
            (m, Ok(dst)) => {
                match m.effective_addr(t, pc, map_base, map_offset) {
                    (m, Err(e)) => (m, Err(e)),
                    (m, Ok(map_addr)) => {
                        match m.effective_addr(t, pc, mbar_base, mbar_offset) {
                            (m, Err(e)) => (m, Err(e)),
                            (m, Ok(mbar)) => {
                                if !m.maps.contains_key((map_space, map_addr)) {
                                    (
                                        m,
                                        Err(
                                            EvalError::TensorMapNotFound {
                                                thread: t,
                                                pc,
                                                space: map_space,
                                                addr: map_addr,
                                            },
                                        ),
                                    )
                                } else {
                                    match tile_plan(
                                        t,
                                        pc,
                                        m.maps[(map_space, map_addr)],
                                        coords.len() as u64,
                                    ) {
                                        Err(e) => (m, Err(e)),
                                        Ok(plan) => {
                                            match m.tensor_tile(
                                                t,
                                                pc,
                                                dst,
                                                plan.0,
                                                plan.1,
                                                plan.2,
                                                coords,
                                            ) {
                                                (m, Err(e)) => (m, Err(e)),
                                                (m, Ok(bytes)) => {
                                                    match m.mbarrier_id(t, pc, mbar) {
                                                        (m, Err(e)) => (m, Err(e)),
                                                        (m, Ok(id)) => {
                                                            m.complete_tx(t, pc, id, bytes)
                                                        },
                                                    }
                                                },
                                            }
                                        },
                                    }
                                }
                            },
                        }
                    },
                }
            },
        }
    }

    /// The elements of an operand in row-major order from the `i`-th on.
    pub open spec fn mma_operand(
        self,
        t: ThreadId,
        pc: InstrId,
        desc: MatrixDescriptor,
        major: Major,
        format: OperandFormat,
        total: u64,
        k_dim: u64,
        elems: Seq<ExprId>,
        i: int,
    ) -> Out<Seq<ExprId>>
        decreases total - i,
    {
        if i >= total {
            (self, Ok(elems))
        } else {
            if major == Major::Mn && desc.swizzle_mode == SwizzleMode::NoSwizzle {
                (
                    self,
                    Err(
                        unsupported(
                            pc,
                            "tcgen05.mma MN-major operand without swizzling is not modeled",
                        ),
                    ),
                )
            } else {
                match operand_addr(
                    desc,
                    major,
                    (i / (k_dim as int)) as nat,
                    (i % (k_dim as int)) as nat,
                    format.bytes() as nat,
                ) {
                    None => (
                        self,
                        Err(
                            unsupported(
                                pc,
                                "tcgen05.mma operand past the end of the address space",
                            ),
                        ),
                    ),
                    Some(addr) => {
                        match self.mem_read_via(
                            t,
                            pc,
                            MemSpace::Shared,
                            addr,
                            format.bytes(),
                            Proxy::Async,
                        ) {
                            (m, Err(e)) => (m, Err(e)),
                            (m, Ok(v)) => {
                                match v {
                                    Value::Scalar(e) => {
                                        match m.lift(operand_value_spec(m.exprs, pc, format, e)) {
                                            (m, Err(e)) => (m, Err(e)),
                                            (m, Ok(x)) => {
                                                m.mma_operand(
                                                    t,
                                                    pc,
                                                    desc,
                                                    major,
                                                    format,
                                                    total,
                                                    k_dim,
                                                    elems.push(x),
                                                    i + 1,
                                                )
                                            },
                                        }
                                    },
                                    _ => {
                                        (
                                            m,
                                            Err(
                                                kind_mismatch(
                                                    t,
                                                    pc,
                                                    "tcgen05.mma operand element is not a scalar",
                                                ),
                                            ),
                                        )
                                    },
                                }
                            },
                        }
                    },
                }
            }
        }
    }

    /// The words of the mask of disabled lanes from the `k`-th on; four cover
    /// all lanes.
    pub open spec fn lane_masks(
        self,
        t: ThreadId,
        pc: InstrId,
        ops: Seq<Operand>,
        masks: Seq<u32>,
        k: int,
    ) -> Out<Seq<u32>>
        decreases ops.len() - k,
    {
        if k >= ops.len() {
            (self, Ok(masks))
        } else {
            if k >= 4 {
                self.lane_masks(t, pc, ops, masks, k + 1)
            } else {
                match self.concrete_operand(t, pc, ops[k], "tcgen05.mma disable-output-lane") {
                    (m, Err(e)) => (m, Err(e)),
                    (m, Ok(v)) => {
                        m.lane_masks(t, pc, ops, masks.push(v as u32), k + 1)
                    },
                }
            }
        }
    }

    /// The value an accumulation starts from.
    #[verifier::opaque]
    pub open spec fn mma_seed(
        self,
        t: ThreadId,
        pc: InstrId,
        lane: u32,
        col: u32,
        accumulate: bool,
    ) -> Out<ExprId> {
        if accumulate {
            match self.tensor_cell(lane, col) {
                Err(e) => {
                    (self, Err(tcgen05_error(t, pc, e)))
                },
                Ok(None) => {
                    let (s, x) = self.exprs.undefined();
                    let m = self.with_exprs(s);
                    (m, Ok(x))
                },
                Ok(Some(x)) => {
                    (self, Ok(x))
                },
            }
        } else {
            let (s, x) = self.exprs.real_const(Coeff::spec_zero());
            let m = self.with_exprs(s);
            (m, Ok(x))
        }
    }

    /// One element of the result: the seed plus a row of `A` times a row of
    /// `B`.
    #[verifier::opaque]
    pub open spec fn mma_cell(
        self,
        t: ThreadId,
        pc: InstrId,
        lane: u32,
        col: u32,
        accumulate: bool,
        a: Seq<ExprId>,
        b: Seq<ExprId>,
        row: u64,
        column: u64,
        k_dim: u64,
    ) -> Out<()> {
        match self.mma_seed(t, pc, lane, col, accumulate) {
            (m, Err(e)) => (m, Err(e)),
            (m, Ok(seed)) => {
                let from_a = (row * k_dim) as u64;
                let from_b = (column * k_dim) as u64;
                let (s, x) = dot_product(
                    m.exprs,
                    a,
                    b,
                    from_a as int,
                    from_b as int,
                    0,
                    k_dim as int,
                    seed,
                );
                let m = m.with_exprs(s);
                if !m.tensor.is_live(col) {
                    (m, Err(tcgen05_error(t, pc, TensorMemError::NotAllocated { lane, col })))
                } else {
                    let m = m.with_tensor(m.tensor.written(lane, col, x));
                    (m, Ok(()))
                }
            },
        }
    }

    /// The elements of one row of the result from the `column`-th on.
    pub open spec fn mma_row(
        self,
        t: ThreadId,
        pc: InstrId,
        lane: u32,
        base: u32,
        accumulate: bool,
        a: Seq<ExprId>,
        b: Seq<ExprId>,
        n: u64,
        k_dim: u64,
        column: int,
    ) -> Out<()>
        decreases n - column,
    {
        if column >= n {
            (self, Ok(()))
        } else {
            match self.mma_cell(
                t,
                pc,
                lane,
                base.saturating_add(column as u32),
                accumulate,
                a,
                b,
                lane as u64,
                column as u64,
                k_dim,
            ) {
                (m, Err(e)) => (m, Err(e)),
                (m, Ok(_)) => {
                    m.mma_row(t, pc, lane, base, accumulate, a, b, n, k_dim, column + 1)
                },
            }
        }
    }

    /// The enabled rows of the result from the `lane`-th on.
    pub open spec fn mma_rows(
        self,
        t: ThreadId,
        pc: InstrId,
        base: u32,
        accumulate: bool,
        masks: Seq<u32>,
        a: Seq<ExprId>,
        b: Seq<ExprId>,
        n: u64,
        k_dim: u64,
        lane: int,
    ) -> Out<()>
        decreases 128 - lane,
    {
        if lane >= 128 {
            (self, Ok(()))
        } else {
            if lane_disabled(masks, lane as u32) {
                self.mma_rows(t, pc, base, accumulate, masks, a, b, n, k_dim, lane + 1)
            } else {
                match self.mma_row(t, pc, lane as u32, base, accumulate, a, b, n, k_dim, 0) {
                    (m, Err(e)) => (m, Err(e)),
                    (m, Ok(_)) => {
                        m.mma_rows(t, pc, base, accumulate, masks, a, b, n, k_dim, lane + 1)
                    },
                }
            }
        }
    }

    /// The operand formats of an instruction descriptor of the modeled form:
    /// dense, a 32-bit float accumulator, no negation, 128 rows.
    #[verifier::opaque]
    pub open spec fn mma_form(
        self,
        t: ThreadId,
        pc: InstrId,
        kind: Tcgen05MmaKind,
        idesc: u32,
    ) -> Out<(OperandFormat, OperandFormat)> {
        let id = spec_instruction_descriptor(idesc);
        if id.sparse {
            (self, Err(unsupported(pc, "tcgen05.mma.sp (sparse A matrix) is not modeled")))
        } else {
            if field_of(idesc as nat, 4, 2) != 1 {
                (
                    self,
                    Err(unsupported(pc, "tcgen05.mma with a non-f32 accumulator is not modeled")),
                )
            } else {
                let a_code = field_of(idesc as nat, 7, 3) as u32;
                let b_code = field_of(idesc as nat, 10, 3) as u32;
                match OperandFormat::decode(kind, a_code) {
                    None => (
                        self,
                        Err(
                            EvalError::Unsupported {
                                pc,
                                what: Detail::MmaTypeField { kind, operand: "A", code: a_code },
                            },
                        ),
                    ),
                    Some(a) => {
                        match OperandFormat::decode(kind, b_code) {
                            None => (
                                self,
                                Err(
                                    EvalError::Unsupported {
                                        pc,
                                        what: Detail::MmaTypeField {
                                            kind,
                                            operand: "B",
                                            code: b_code,
                                        },
                                    },
                                ),
                            ),
                            Some(b) => {
                                if id.negate_a || id.negate_b {
                                    (
                                        self,
                                        Err(
                                            unsupported(
                                                pc,
                                                "tcgen05.mma's Negate A/B Matrix is not modeled",
                                            ),
                                        ),
                                    )
                                } else {
                                    if id.m != 128 {
                                        (
                                            self,
                                            Err(
                                                EvalError::Unsupported {
                                                    pc,
                                                    what: Detail::MmaRows { m: id.m },
                                                },
                                            ),
                                        )
                                    } else {
                                        (self, Ok((a, b)))
                                    }
                                }
                            },
                        }
                    },
                }
            }
        }
    }

    /// All elements of an operand of `rows` rows.
    #[verifier::opaque]
    pub open spec fn operand_matrix(
        self,
        t: ThreadId,
        pc: InstrId,
        desc: MatrixDescriptor,
        transpose: bool,
        format: OperandFormat,
        rows: u32,
        kind: Tcgen05MmaKind,
    ) -> Out<Seq<ExprId>> {
        self.mma_operand(
            t,
            pc,
            desc,
            major_of(transpose),
            format,
            (rows * k_dim(kind)) as u64,
            k_dim(kind),
            Seq::empty(),
            0,
        )
    }

    /// The matrix descriptors of the two operands, of the modeled form.
    #[verifier::opaque]
    pub open spec fn mma_descs(
        self,
        t: ThreadId,
        pc: InstrId,
        a_desc: Operand,
        b_desc: Operand,
    ) -> Out<(MatrixDescriptor, MatrixDescriptor)> {
        match self.concrete_operand(t, pc, a_desc, "tcgen05.mma a-desc") {
            (m, Err(e)) => (m, Err(e)),
            (m, Ok(a_raw)) => {
                match m.concrete_operand(t, pc, b_desc, "tcgen05.mma b-desc") {
                    (m, Err(e)) => (m, Err(e)),
                    (m, Ok(b_raw)) => {
                        match matrix_spec(pc, a_raw as u64, "a-desc") {
                            Err(e) => (m, Err(e)),
                            Ok(a) => {
                                match matrix_spec(pc, b_raw as u64, "b-desc") {
                                    Err(e) => (m, Err(e)),
                                    Ok(b) => {
                                        if a.absolute_leading_stride || b.absolute_leading_stride {
                                            (
                                                m,
                                                Err(
                                                    unsupported(
                                                        pc,
                                                        "tcgen05.mma's absolute leading-dimension stride mode (sm_103a only) is not modeled",
                                                    ),
                                                ),
                                            )
                                        } else {
                                            if a.base_offset != 0 || b.base_offset != 0 {
                                                (
                                                    m,
                                                    Err(
                                                        unsupported(
                                                            pc,
                                                            "tcgen05.mma with a nonzero matrix-descriptor base offset is not modeled",
                                                        ),
                                                    ),
                                                )
                                            } else {
                                                (m, Ok((a, b)))
                                            }
                                        }
                                    },
                                }
                            },
                        }
                    },
                }
            },
        }
    }

    /// Writes the product of two operands, on top of the accumulator if asked
    /// to.
    #[verifier::opaque]
    pub open spec fn mma_product(
        self,
        t: ThreadId,
        pc: InstrId,
        kind: Tcgen05MmaKind,
        d_base: Operand,
        d_offset: i64,
        a: Seq<ExprId>,
        b: Seq<ExprId>,
        n: u32,
        disable: Seq<Operand>,
        enable_input_d: Operand,
    ) -> Out<()> {
        match self.concrete_operand(t, pc, enable_input_d, "tcgen05.mma enable-input-d") {
            (m, Err(e)) => (m, Err(e)),
            (m, Ok(enable)) => {
                match m.effective_addr(t, pc, d_base, d_offset) {
                    (m, Err(e)) => (m, Err(e)),
                    (m, Ok(base)) => {
                        match m.lane_masks(t, pc, disable, Seq::empty(), 0) {
                            (m, Err(e)) => (m, Err(e)),
                            (m, Ok(masks)) => {
                                m.mma_rows(
                                    t,
                                    pc,
                                    base as u32,
                                    enable != 0,
                                    masks,
                                    a,
                                    b,
                                    n as u64,
                                    k_dim(kind),
                                    0,
                                )
                            },
                        }
                    },
                }
            },
        }
    }

    /// `tcgen05.mma`: `D = A*B + D`, or `A*B`, into Tensor Memory.
    #[verifier::opaque]
    pub open spec fn tcgen05_mma(
        self,
        t: ThreadId,
        pc: InstrId,
        kind: Tcgen05MmaKind,
        d_base: Operand,
        d_offset: i64,
        a_desc: Operand,
        b_desc: Operand,
        idesc: Operand,
        disable: Seq<Operand>,
        enable_input_d: Operand,
    ) -> Out<()> {
        match self.concrete_operand(t, pc, idesc, "tcgen05.mma idesc") {
            (m, Err(e)) => (m, Err(e)),
            (m, Ok(raw)) => {
                match m.mma_form(t, pc, kind, raw as u32) {
                    (m, Err(e)) => (m, Err(e)),
                    (m, Ok(formats)) => {
                        let id = spec_instruction_descriptor(raw as u32);
                        match m.mma_descs(t, pc, a_desc, b_desc) {
                            (m, Err(e)) => (m, Err(e)),
                            (m, Ok(descs)) => {
                                match m.operand_matrix(
                                    t,
                                    pc,
                                    descs.0,
                                    id.transpose_a,
                                    formats.0,
                                    128,
                                    kind,
                                ) {
                                    (m, Err(e)) => (m, Err(e)),
                                    (m, Ok(a)) => {
                                        match m.operand_matrix(
                                            t,
                                            pc,
                                            descs.1,
                                            id.transpose_b,
                                            formats.1,
                                            id.n,
                                            kind,
                                        ) {
                                            (m, Err(e)) => (m, Err(e)),
                                            (m, Ok(b)) => {
                                                m.mma_product(
                                                    t,
                                                    pc,
                                                    kind,
                                                    d_base,
                                                    d_offset,
                                                    a,
                                                    b,
                                                    id.n,
                                                    disable,
                                                    enable_input_d,
                                                )
                                            },
                                        }
                                    },
                                }
                            },
                        }
                    },
                }
            },
        }
    }
}

impl<'p> Interpreter<'p> {
    fn read_plan(
        &self,
        t: ThreadId,
        pc: InstrId,
        space: MemSpace,
        addr: u64,
        coords: u64,
    ) -> (r: Result<
        (TensorHeader, Vec<TensorDim>, Vec<u64>),
        EvalError,
    >)
        requires
            self.wf(),
            self@.maps.contains_key((space, addr)),
        ensures
            (match r {
                Ok(p) => Ok::<(TensorHeader, Seq<TensorDim>, Seq<u64>), EvalError>(
                    (p.0, p.1@, p.2@),
                ),
                Err(e) => Err(e),
            }) == tile_plan(t, pc, self@.maps[(space, addr)], coords),
    {
        match self.tensor_maps.get(space, addr) {
            None => Err(missing(t, pc, "rank")),
            Some(entry) => {
                let header = match read_header(t, pc, entry, coords) {
                    Err(e) => {
                        return Err(e);
                    },
                    Ok(h) => h,
                };
                let dims = match read_dims(t, pc, entry, coords as u32) {
                    Err(e) => {
                        return Err(e);
                    },
                    Ok(d) => d,
                };
                let strides = match read_strides(t, pc, entry, (coords - 1) as u32) {
                    Err(e) => {
                        return Err(e);
                    },
                    Ok(s) => s,
                };
                Ok((header, dims, strides))
            },
        }
    }

    /// A 32-bit field value.
    pub(crate) fn field_u32(
        &mut self,
        t: ThreadId,
        pc: InstrId,
        op: Operand,
        what: &'static str,
        field: &'static str,
    ) -> (r: EvalResult<u32>)
        requires
            old(self).wf(),
            old(self).has(t),
        ensures
            final(self).wf(),
            final(self).setup == old(self).setup,
            final(self)@.pace() == old(self)@.pace(),
            (final(self)@, r) == old(self)@.field_u32(t, pc, op, what, field),
    {
        reveal(Machine::field_u32);
        let v = match self.concrete_operand(t, pc, &op, what) {
            Err(e) => {
                return Err(e);
            },
            Ok(v) => v,
        };
        if v < 0 || v > 0xFFFF_FFFF {
            return Err(
                EvalError::Unsupported { pc, what: Detail::FieldOutOfRange { field, value: v } },
            );
        }
        Ok(v as u32)
    }

    /// A 64-bit field value.
    pub(crate) fn field_u64(
        &mut self,
        t: ThreadId,
        pc: InstrId,
        op: Operand,
        what: &'static str,
        field: &'static str,
    ) -> (r: EvalResult<u64>)
        requires
            old(self).wf(),
            old(self).has(t),
        ensures
            final(self).wf(),
            final(self).setup == old(self).setup,
            final(self)@.pace() == old(self)@.pace(),
            (final(self)@, r) == old(self)@.field_u64(t, pc, op, what, field),
    {
        reveal(Machine::field_u64);
        let v = match self.concrete_operand(t, pc, &op, what) {
            Err(e) => {
                return Err(e);
            },
            Ok(v) => v,
        };
        if v < 0 {
            return Err(
                EvalError::Unsupported { pc, what: Detail::FieldOutOfRange { field, value: v } },
            );
        }
        Ok(v as u64)
    }

    /// The value a field write stores.
    pub(crate) fn field_value(
        &mut self,
        t: ThreadId,
        pc: InstrId,
        field: TensormapFieldWrite,
    ) -> (r: EvalResult<FieldValue>)
        requires
            old(self).wf(),
            old(self).has(t),
        ensures
            final(self).wf(),
            final(self).setup == old(self).setup,
            final(self)@.pace() == old(self)@.pace(),
            (final(self)@, r) == old(self)@.field_value(t, pc, field),
    {
        reveal(Machine::field_value);
        match field {
            TensormapFieldWrite::GlobalAddress(op) => {
                let v = match self.concrete_operand(t, pc, &op, "tensormap .global_address") {
                    Err(e) => {
                        return Err(e);
                    },
                    Ok(v) => v,
                };
                Ok(FieldValue::GlobalAddress(v as u64))
            },
            TensormapFieldWrite::Rank(op) => {
                let v = match self.field_u32(t, pc, op, "tensormap .rank", "rank") {
                    Err(e) => {
                        return Err(e);
                    },
                    Ok(v) => v,
                };
                Ok(FieldValue::Rank(v))
            },
            TensormapFieldWrite::BoxDim { ord, new_val } => {
                let v = match self.field_u32(t, pc, new_val, "tensormap .box_dim", "box_dim") {
                    Err(e) => {
                        return Err(e);
                    },
                    Ok(v) => v,
                };
                Ok(FieldValue::BoxDim(ord, v))
            },
            TensormapFieldWrite::GlobalDim { ord, new_val } => {
                let v = match self.field_u64(
                    t,
                    pc,
                    new_val,
                    "tensormap .global_dim",
                    "global_dim",
                ) {
                    Err(e) => {
                        return Err(e);
                    },
                    Ok(v) => v,
                };
                Ok(FieldValue::GlobalDim(ord, v))
            },
            TensormapFieldWrite::GlobalStride { ord, new_val } => {
                let v = match self.field_u64(
                    t,
                    pc,
                    new_val,
                    "tensormap .global_stride",
                    "global_stride",
                ) {
                    Err(e) => {
                        return Err(e);
                    },
                    Ok(v) => v,
                };
                Ok(FieldValue::GlobalStride(ord, v))
            },
            TensormapFieldWrite::ElementStride { ord, new_val } => {
                let v = match self.field_u32(
                    t,
                    pc,
                    new_val,
                    "tensormap .element_stride",
                    "element_stride",
                ) {
                    Err(e) => {
                        return Err(e);
                    },
                    Ok(v) => v,
                };
                Ok(FieldValue::ElementStride(ord, v))
            },
            TensormapFieldWrite::Elemtype(v) => {
                Ok(FieldValue::Elemtype(v))
            },
            TensormapFieldWrite::InterleaveLayout(v) => {
                Ok(FieldValue::InterleaveLayout(v))
            },
            TensormapFieldWrite::SwizzleMode(v) => {
                Ok(FieldValue::SwizzleMode(v))
            },
            TensormapFieldWrite::SwizzleAtomicity(v) => {
                Ok(FieldValue::SwizzleAtomicity(v))
            },
            TensormapFieldWrite::FillMode(v) => {
                Ok(FieldValue::FillMode(v))
            },
        }
    }

    /// `tensormap.replace`: writes one field of a tensor-map object.
    pub(crate) fn tensormap_replace(
        &mut self,
        t: ThreadId,
        pc: InstrId,
        space: MemSpace,
        base: &Operand,
        offset: i64,
        field: TensormapFieldWrite,
    ) -> (r: EvalResult<()>)
        requires
            old(self).wf(),
            old(self).has(t),
        ensures
            final(self).wf(),
            final(self).setup == old(self).setup,
            final(self)@.pace() == old(self)@.pace(),
            (final(self)@, r) == old(self)@.tensormap_replace(t, pc, space, *base, offset, field),
    {
        reveal(Machine::tensormap_replace);
        let addr = match self.effective_addr(t, pc, base, offset) {
            Err(e) => {
                return Err(e);
            },
            Ok(v) => v,
        };
        let v = match self.field_value(t, pc, field) {
            Err(e) => {
                return Err(e);
            },
            Ok(v) => v,
        };
        self.tensor_maps.entry_mut(space, addr).set_field(v);
        Ok(())
    }

    /// The coordinates of a tile from the `k`-th on.
    pub(crate) fn tensor_coords(
        &mut self,
        t: ThreadId,
        pc: InstrId,
        coords: &Vec<Operand>,
    ) -> (r: EvalResult<Vec<i64>>)
        requires
            old(self).wf(),
            old(self).has(t),
        ensures
            final(self).wf(),
            final(self).setup == old(self).setup,
            final(self)@.pace() == old(self)@.pace(),
            (final(self)@, viewed(r)) == old(self)@.tensor_coords(t, pc, coords@, Seq::empty(), 0),
    {
        let mut values: Vec<i64> = Vec::new();
        let mut k: usize = 0;
        while k < coords.len()
            invariant
                self.wf(),
                self.has(t),
                self.setup == old(self).setup,
                self@.pace() == old(self)@.pace(),
                k <= coords@.len(),
                old(self)@.tensor_coords(t, pc, coords@, Seq::empty(), 0) == self@.tensor_coords(
                    t,
                    pc,
                    coords@,
                    values@,
                    k as int,
                ),
            decreases coords@.len() - k,
        {
            let v = match self.concrete_operand(
                t,
                pc,
                &coords[k],
                "cp.async.bulk.tensor tensorCoords",
            ) {
                Err(e) => {
                    return Err(e);
                },
                Ok(v) => v,
            };
            values.push(v);
            k = k + 1;
        }
        Ok(values)
    }

    /// The value of a tile's element: read from global memory inside the
    /// tensor, zero outside it.
    pub(crate) fn tile_value(
        &mut self,
        t: ThreadId,
        pc: InstrId,
        tile: TileCopy,
        dims: &Vec<TensorDim>,
        strides: &Vec<u64>,
        coords: &Vec<i64>,
        linear: u64,
    ) -> (r: EvalResult<Value>)
        requires
            old(self).wf(),
            old(self).has(t),
        ensures
            final(self).wf(),
            final(self).setup == old(self).setup,
            final(self)@.pace() == old(self)@.pace(),
            (final(self)@, r) == old(self)@.tile_value(
                t,
                pc,
                tile,
                dims@,
                strides@,
                coords@,
                linear,
            ),
    {
        reveal(Machine::tile_value);
        if is_inside(dims, coords, linear) {
            let addr = match source_addr(tile, dims, strides, coords, linear) {
                None => {
                    return Err(
                        unsupported(
                            pc,
                            "cp.async.bulk.tensor: source past the end of the address space",
                        ),
                    );
                },
                Some(v) => v,
            };
            self.mem_read(t, pc, MemSpace::Global, addr, tile.elemtype.byte_width() as u64)
        } else {
            if tile.elemtype.is_float() {
                let zero = self.arena.real_const(Coeff::zero());
                Ok(Value::Scalar(zero))
            } else {
                let zero = self.arena.int_const(0);
                Ok(Value::Scalar(zero))
            }
        }
    }

    /// Copies one element of a tile into shared memory, through the
    /// asynchronous proxy on targets that have one.
    pub(crate) fn tile_element(
        &mut self,
        t: ThreadId,
        pc: InstrId,
        tile: TileCopy,
        dims: &Vec<TensorDim>,
        strides: &Vec<u64>,
        coords: &Vec<i64>,
        linear: u64,
    ) -> (r: EvalResult<()>)
        requires
            old(self).wf(),
            old(self).has(t),
        ensures
            final(self).wf(),
            final(self).setup == old(self).setup,
            final(self)@.pace() == old(self)@.pace(),
            (final(self)@, r) == old(self)@.tile_element(
                t,
                pc,
                tile,
                dims@,
                strides@,
                coords@,
                linear,
            ),
    {
        reveal(Machine::tile_element);
        let v = match self.tile_value(t, pc, tile, dims, strides, coords, linear) {
            Err(e) => {
                return Err(e);
            },
            Ok(v) => v,
        };
        let at: (u64, u64) = tile_position(tile, linear);
        let bytes: u64 = tile.elemtype.byte_width() as u64;
        let dst = match element_addr_in_space(&tile.desc, at.0, at.1, bytes) {
            None => {
                return Err(
                    unsupported(
                        pc,
                        "cp.async.bulk.tensor: destination past the end of the address space",
                    ),
                );
            },
            Some(v) => v,
        };
        if let Err(e) = self.mem_write(t, pc, MemSpace::Shared, dst, bytes, v) {
            return Err(e);
        }
        if self.setup.features.async_proxy_fence {
            self.race.mark_async_proxy_unfenced(MemSpace::Shared, dst, bytes, t, pc);
            Ok(())
        } else {
            Ok(())
        }
    }

    /// Copies the elements of a tile from the `linear`-th on.
    pub(crate) fn tile_elements(
        &mut self,
        t: ThreadId,
        pc: InstrId,
        tile: TileCopy,
        dims: &Vec<TensorDim>,
        strides: &Vec<u64>,
        coords: &Vec<i64>,
        total: u64,
    ) -> (r: EvalResult<()>)
        requires
            old(self).wf(),
            old(self).has(t),
        ensures
            final(self).wf(),
            final(self).setup == old(self).setup,
            final(self)@.pace() == old(self)@.pace(),
            (final(self)@, r) == old(self)@.tile_elements(
                t,
                pc,
                tile,
                dims@,
                strides@,
                coords@,
                total,
                0,
            ),
    {
        let mut linear: u64 = 0;
        while linear < total
            invariant
                self.wf(),
                self.has(t),
                self.setup == old(self).setup,
                self@.pace() == old(self)@.pace(),
                linear <= total,
                old(self)@.tile_elements(t, pc, tile, dims@, strides@, coords@, total, 0) == self@.tile_elements(
                    t,
                    pc,
                    tile,
                    dims@,
                    strides@,
                    coords@,
                    total,
                    linear as int,
                ),
            decreases total - linear,
        {
            if let Err(e) = self.tile_element(t, pc, tile, dims, strides, coords, linear) {
                return Err(e);
            }
            linear = linear + 1;
        }
        Ok(())
    }

    /// Copies a tile and returns its size in bytes.
    pub(crate) fn tensor_tile(
        &mut self,
        t: ThreadId,
        pc: InstrId,
        dst: u64,
        header: TensorHeader,
        dims: &Vec<TensorDim>,
        strides: &Vec<u64>,
        coords: &Vec<Operand>,
    ) -> (r: EvalResult<u64>)
        requires
            old(self).wf(),
            old(self).has(t),
        ensures
            final(self).wf(),
            final(self).setup == old(self).setup,
            final(self)@.pace() == old(self)@.pace(),
            (final(self)@, r) == old(self)@.tensor_tile(
                t,
                pc,
                dst,
                header,
                dims@,
                strides@,
                coords@,
            ),
    {
        reveal(Machine::tensor_tile);
        let bytes: u64 = header.elemtype.byte_width() as u64;
        let box0: u32 = first_box(dims);
        let pitch = match row_pitch(pc, dst, box0, bytes, header.mode) {
            Err(e) => {
                return Err(e);
            },
            Ok(v) => v,
        };
        let values = match self.tensor_coords(t, pc, coords) {
            Err(e) => {
                return Err(e);
            },
            Ok(v) => v,
        };
        let total = match box_volume(pc, dims) {
            Err(e) => {
                return Err(e);
            },
            Ok(v) => v,
        };
        let tile: TileCopy = tile_of(dst, pitch, box0, header);
        if let Err(e) = self.tile_elements(t, pc, tile, dims, strides, &values, total) {
            return Err(e);
        }
        if overflows(total, bytes) {
            return Err(unsupported(pc, "cp.async.bulk.tensor: box too large"));
        }
        assert(total * bytes >= 0) by (nonlinear_arith) requires total >= 0, bytes >= 0;
        Ok(total * bytes)
    }

    /// `cp.async.bulk.tensor`: copies a tile of a tensor from global to shared
    /// memory and completes its bytes on an mbarrier.
    pub(crate) fn bulk_tensor_load(
        &mut self,
        t: ThreadId,
        pc: InstrId,
        dst_base: &Operand,
        dst_offset: i64,
        map_space: MemSpace,
        map_base: &Operand,
        map_offset: i64,
        coords: &Vec<Operand>,
        mbar_base: &Operand,
        mbar_offset: i64,
    ) -> (r: EvalResult<()>)
        requires
            old(self).wf(),
            old(self).has(t),
        ensures
            final(self).wf(),
            final(self).setup == old(self).setup,
            final(self)@.pace() == old(self)@.pace(),
            (final(self)@, r) == old(self)@.bulk_tensor_load(
                t,
                pc,
                *dst_base,
                dst_offset,
                map_space,
                *map_base,
                map_offset,
                coords@,
                *mbar_base,
                mbar_offset,
            ),
    {
        reveal(Machine::bulk_tensor_load);
        let dst = match self.effective_addr(t, pc, dst_base, dst_offset) {
            Err(e) => {
                return Err(e);
            },
            Ok(v) => v,
        };
        let map_addr = match self.effective_addr(t, pc, map_base, map_offset) {
            Err(e) => {
                return Err(e);
            },
            Ok(v) => v,
        };
        let mbar = match self.effective_addr(t, pc, mbar_base, mbar_offset) {
            Err(e) => {
                return Err(e);
            },
            Ok(v) => v,
        };
        if self.tensor_maps.get(map_space, map_addr).is_none() {
            return Err(
                EvalError::TensorMapNotFound { thread: t, pc, space: map_space, addr: map_addr },
            );
        }
        let plan = match self.read_plan(t, pc, map_space, map_addr, coords.len() as u64) {
            Err(e) => {
                return Err(e);
            },
            Ok(v) => v,
        };
        let bytes = match self.tensor_tile(t, pc, dst, plan.0, &plan.1, &plan.2, coords) {
            Err(e) => {
                return Err(e);
            },
            Ok(v) => v,
        };
        let id = match self.mbarrier_id(t, pc, mbar) {
            Err(e) => {
                return Err(e);
            },
            Ok(v) => v,
        };
        self.complete_tx(t, pc, id, bytes)
    }

    /// The elements of an operand in row-major order from the `i`-th on.
    pub(crate) fn read_mma_operand(
        &mut self,
        t: ThreadId,
        pc: InstrId,
        desc: MatrixDescriptor,
        major: Major,
        format: OperandFormat,
        total: u64,
        k_dim: u64,
    ) -> (r: EvalResult<Vec<ExprId>>)
        requires
            old(self).wf(),
            old(self).has(t),
            k_dim == 16 || k_dim == 32,
        ensures
            final(self).wf(),
            final(self).setup == old(self).setup,
            final(self)@.pace() == old(self)@.pace(),
            (final(self)@, viewed(r)) == old(self)@.mma_operand(
                t,
                pc,
                desc,
                major,
                format,
                total,
                k_dim,
                Seq::empty(),
                0,
            ),
            r matches Ok(v) ==> v@.len() == total,
    {
        let mut elems: Vec<ExprId> = Vec::new();
        let mut i: u64 = 0;
        while i < total
            invariant
                self.wf(),
                self.has(t),
                self.setup == old(self).setup,
                self@.pace() == old(self)@.pace(),
                k_dim == 16 || k_dim == 32,
                elems@.len() == i,
                i <= total,
                old(self)@.mma_operand(t, pc, desc, major, format, total, k_dim, Seq::empty(), 0) == self@.mma_operand(
                    t,
                    pc,
                    desc,
                    major,
                    format,
                    total,
                    k_dim,
                    elems@,
                    i as int,
                ),
            decreases total - i,
        {
            if major == Major::Mn && desc.swizzle_mode == SwizzleMode::NoSwizzle {
                return Err(
                    unsupported(
                        pc,
                        "tcgen05.mma MN-major operand without swizzling is not modeled",
                    ),
                );
            }
            let addr = match operand_element_addr(
                &desc,
                major,
                i / k_dim,
                i % k_dim,
                format.bytes(),
            ) {
                None => {
                    return Err(
                        unsupported(pc, "tcgen05.mma operand past the end of the address space"),
                    );
                },
                Some(v) => v,
            };
            let v = match self.mem_read_via(
                t,
                pc,
                MemSpace::Shared,
                addr,
                format.bytes(),
                Proxy::Async,
            ) {
                Err(e) => {
                    return Err(e);
                },
                Ok(v) => v,
            };
            match v {
                Value::Scalar(e) => {
                    let x = match decode_operand(&mut self.arena, pc, format, e) {
                        Err(e) => {
                            return Err(e);
                        },
                        Ok(v) => v,
                    };
                    elems.push(x);
                },
                _ => {
                    return Err(kind_mismatch(t, pc, "tcgen05.mma operand element is not a scalar"));
                },
            }
            i = i + 1;
        }
        Ok(elems)
    }

    /// The words of the mask of disabled lanes from the `k`-th on; four cover
    /// all lanes.
    pub(crate) fn lane_masks(
        &mut self,
        t: ThreadId,
        pc: InstrId,
        ops: &Vec<Operand>,
    ) -> (r: EvalResult<Vec<u32>>)
        requires
            old(self).wf(),
            old(self).has(t),
        ensures
            final(self).wf(),
            final(self).setup == old(self).setup,
            final(self)@.pace() == old(self)@.pace(),
            (final(self)@, viewed(r)) == old(self)@.lane_masks(t, pc, ops@, Seq::empty(), 0),
    {
        let mut masks: Vec<u32> = Vec::new();
        let mut k: usize = 0;
        while k < ops.len()
            invariant
                self.wf(),
                self.has(t),
                self.setup == old(self).setup,
                self@.pace() == old(self)@.pace(),
                k <= ops@.len(),
                old(self)@.lane_masks(t, pc, ops@, Seq::empty(), 0) == self@.lane_masks(
                    t,
                    pc,
                    ops@,
                    masks@,
                    k as int,
                ),
            decreases ops@.len() - k,
        {
            if k >= 4 {
            } else {
                let v = match self.concrete_operand(
                    t,
                    pc,
                    &ops[k],
                    "tcgen05.mma disable-output-lane",
                ) {
                    Err(e) => {
                        return Err(e);
                    },
                    Ok(v) => v,
                };
                masks.push(v as u32);
            }
            k = k + 1;
        }
        Ok(masks)
    }

    /// The value an accumulation starts from.
    pub(crate) fn mma_seed(
        &mut self,
        t: ThreadId,
        pc: InstrId,
        lane: u32,
        col: u32,
        accumulate: bool,
    ) -> (r: EvalResult<ExprId>)
        requires
            old(self).wf(),
            old(self).has(t),
        ensures
            final(self).wf(),
            final(self).setup == old(self).setup,
            final(self)@.pace() == old(self)@.pace(),
            (final(self)@, r) == old(self)@.mma_seed(t, pc, lane, col, accumulate),
    {
        reveal(Machine::mma_seed);
        if accumulate {
            match self.tensor.read(lane, col) {
                Err(e) => {
                    Err(tcgen05_error(t, pc, e))
                },
                Ok(None) => {
                    let x = self.arena.undefined();
                    Ok(x)
                },
                Ok(Some(x)) => {
                    Ok(x)
                },
            }
        } else {
            let x = self.arena.real_const(Coeff::zero());
            Ok(x)
        }
    }

    /// One element of the result: the seed plus a row of `A` times a row of
    /// `B`.
    pub(crate) fn mma_cell(
        &mut self,
        t: ThreadId,
        pc: InstrId,
        lane: u32,
        col: u32,
        accumulate: bool,
        a: &Vec<ExprId>,
        b: &Vec<ExprId>,
        row: u64,
        column: u64,
        k_dim: u64,
    ) -> (r: EvalResult<()>)
        requires
            old(self).wf(),
            old(self).has(t),
            lane < LANES,
            k_dim == 16 || k_dim == 32,
            row * k_dim + k_dim <= a@.len(),
            column * k_dim + k_dim <= b@.len(),
            a@.len() <= u32::MAX,
            b@.len() <= u32::MAX,
        ensures
            final(self).wf(),
            final(self).setup == old(self).setup,
            final(self)@.pace() == old(self)@.pace(),
            (final(self)@, r) == old(self)@.mma_cell(
                t,
                pc,
                lane,
                col,
                accumulate,
                a@,
                b@,
                row,
                column,
                k_dim,
            ),
    {
        reveal(Machine::mma_cell);
        let seed = match self.mma_seed(t, pc, lane, col, accumulate) {
            Err(e) => {
                return Err(e);
            },
            Ok(v) => v,
        };
        let from_a: u64 = start_of(row, k_dim, a.len() as u64);
        let from_b: u64 = start_of(column, k_dim, b.len() as u64);
        let x = dot(&mut self.arena, a, b, from_a as usize, from_b as usize, k_dim as usize, seed);
        if self.tensor.write(lane, col, x).is_err() {
            return Err(tcgen05_error(t, pc, TensorMemError::NotAllocated { lane, col }));
        }
        Ok(())
    }

    /// The elements of one row of the result from the `column`-th on.
    pub(crate) fn mma_row(
        &mut self,
        t: ThreadId,
        pc: InstrId,
        lane: u32,
        base: u32,
        accumulate: bool,
        a: &Vec<ExprId>,
        b: &Vec<ExprId>,
        n: u64,
        k_dim: u64,
    ) -> (r: EvalResult<()>)
        requires
            old(self).wf(),
            old(self).has(t),
            lane < LANES,
            k_dim == 16 || k_dim == 32,
            n <= 1024,
            lane * k_dim + k_dim <= a@.len() <= u32::MAX,
            n * k_dim == b@.len(),
        ensures
            final(self).wf(),
            final(self).setup == old(self).setup,
            final(self)@.pace() == old(self)@.pace(),
            (final(self)@, r) == old(self)@.mma_row(
                t,
                pc,
                lane,
                base,
                accumulate,
                a@,
                b@,
                n,
                k_dim,
                0,
            ),
    {
        let mut column: u64 = 0;
        while column < n
            invariant
                self.wf(),
                self.has(t),
                self.setup == old(self).setup,
                self@.pace() == old(self)@.pace(),
                lane < LANES,
                k_dim == 16 || k_dim == 32,
                n <= 1024,
                lane * k_dim + k_dim <= a@.len() <= u32::MAX,
                n * k_dim == b@.len(),
                column <= n,
                old(self)@.mma_row(t, pc, lane, base, accumulate, a@, b@, n, k_dim, 0) == self@.mma_row(
                    t,
                    pc,
                    lane,
                    base,
                    accumulate,
                    a@,
                    b@,
                    n,
                    k_dim,
                    column as int,
                ),
            decreases n - column,
        {
            proof {
                lemma_row_fits(column as int, n as int, k_dim as int);
                lemma_row_fits(n as int - 1, n as int, k_dim as int);
            }
            if let Err(e) = self.mma_cell(
                t,
                pc,
                lane,
                base.saturating_add(column as u32),
                accumulate,
                a,
                b,
                lane as u64,
                column as u64,
                k_dim,
            ) {
                return Err(e);
            }
            column = column + 1;
        }
        Ok(())
    }

    /// The enabled rows of the result from the `lane`-th on.
    pub(crate) fn mma_rows(
        &mut self,
        t: ThreadId,
        pc: InstrId,
        base: u32,
        accumulate: bool,
        masks: &Vec<u32>,
        a: &Vec<ExprId>,
        b: &Vec<ExprId>,
        n: u64,
        k_dim: u64,
    ) -> (r: EvalResult<()>)
        requires
            old(self).wf(),
            old(self).has(t),
            k_dim == 16 || k_dim == 32,
            n <= 1024,
            128 * k_dim == a@.len(),
            n * k_dim == b@.len(),
        ensures
            final(self).wf(),
            final(self).setup == old(self).setup,
            final(self)@.pace() == old(self)@.pace(),
            (final(self)@, r) == old(self)@.mma_rows(
                t,
                pc,
                base,
                accumulate,
                masks@,
                a@,
                b@,
                n,
                k_dim,
                0,
            ),
    {
        let mut lane: u32 = 0;
        while lane < 128
            invariant
                self.wf(),
                self.has(t),
                self.setup == old(self).setup,
                self@.pace() == old(self)@.pace(),
                k_dim == 16 || k_dim == 32,
                n <= 1024,
                128 * k_dim == a@.len(),
                n * k_dim == b@.len(),
                lane <= 128,
                old(self)@.mma_rows(t, pc, base, accumulate, masks@, a@, b@, n, k_dim, 0) == self@.mma_rows(
                    t,
                    pc,
                    base,
                    accumulate,
                    masks@,
                    a@,
                    b@,
                    n,
                    k_dim,
                    lane as int,
                ),
            decreases 128 - lane,
        {
            if is_disabled(masks, lane) {
            } else {
                proof { lemma_row_fits(lane as int, 128, k_dim as int); }
                if let Err(e) = self.mma_row(t, pc, lane, base, accumulate, a, b, n, k_dim) {
                    return Err(e);
                }
            }
            lane = lane + 1;
        }
        Ok(())
    }

    /// The operand formats of an instruction descriptor of the modeled form:
    /// dense, a 32-bit float accumulator, no negation, 128 rows.
    pub(crate) fn mma_form(
        &mut self,
        t: ThreadId,
        pc: InstrId,
        kind: Tcgen05MmaKind,
        idesc: u32,
    ) -> (r: EvalResult<(OperandFormat, OperandFormat)>)
        requires
            old(self).wf(),
            old(self).has(t),
        ensures
            final(self).wf(),
            final(self).setup == old(self).setup,
            final(self)@.pace() == old(self)@.pace(),
            (final(self)@, r) == old(self)@.mma_form(t, pc, kind, idesc),
    {
        reveal(Machine::mma_form);
        let id: InstructionDescriptor = decode_instruction_descriptor(idesc);
        if id.sparse {
            return Err(unsupported(pc, "tcgen05.mma.sp (sparse A matrix) is not modeled"));
        }
        if field(idesc as u64, 4, 2) != 1 {
            return Err(unsupported(pc, "tcgen05.mma with a non-f32 accumulator is not modeled"));
        }
        let a_code: u32 = field(idesc as u64, 7, 3) as u32;
        let b_code: u32 = field(idesc as u64, 10, 3) as u32;
        let a = match OperandFormat::decode(kind, a_code) {
            None => {
                return Err(
                    EvalError::Unsupported {
                        pc,
                        what: Detail::MmaTypeField { kind, operand: "A", code: a_code },
                    },
                );
            },
            Some(v) => v,
        };
        let b = match OperandFormat::decode(kind, b_code) {
            None => {
                return Err(
                    EvalError::Unsupported {
                        pc,
                        what: Detail::MmaTypeField { kind, operand: "B", code: b_code },
                    },
                );
            },
            Some(v) => v,
        };
        if id.negate_a || id.negate_b {
            return Err(unsupported(pc, "tcgen05.mma's Negate A/B Matrix is not modeled"));
        }
        if id.m != 128 {
            return Err(EvalError::Unsupported { pc, what: Detail::MmaRows { m: id.m } });
        }
        Ok((a, b))
    }

    /// All elements of an operand of `rows` rows.
    pub(crate) fn operand_matrix(
        &mut self,
        t: ThreadId,
        pc: InstrId,
        desc: MatrixDescriptor,
        transpose: bool,
        format: OperandFormat,
        rows: u32,
        kind: Tcgen05MmaKind,
    ) -> (r: EvalResult<Vec<ExprId>>)
        requires
            old(self).wf(),
            old(self).has(t),
            rows <= 512,
        ensures
            final(self).wf(),
            final(self).setup == old(self).setup,
            final(self)@.pace() == old(self)@.pace(),
            (final(self)@, viewed(r)) == old(self)@.operand_matrix(
                t,
                pc,
                desc,
                transpose,
                format,
                rows,
                kind,
            ),
            r matches Ok(v) ==> v@.len() == rows * k_dim(kind),
    {
        reveal(Machine::operand_matrix);
        proof { lemma_elements_bound(rows, kind); }
        self.read_mma_operand(
            t,
            pc,
            desc,
            major_of(transpose),
            format,
            rows as u64 * k_dim(kind),
            k_dim(kind),
        )
    }

    /// The matrix descriptors of the two operands, of the modeled form.
    pub(crate) fn mma_descs(
        &mut self,
        t: ThreadId,
        pc: InstrId,
        a_desc: &Operand,
        b_desc: &Operand,
    ) -> (r: EvalResult<(MatrixDescriptor, MatrixDescriptor)>)
        requires
            old(self).wf(),
            old(self).has(t),
        ensures
            final(self).wf(),
            final(self).setup == old(self).setup,
            final(self)@.pace() == old(self)@.pace(),
            (final(self)@, r) == old(self)@.mma_descs(t, pc, *a_desc, *b_desc),
    {
        reveal(Machine::mma_descs);
        let a_raw = match self.concrete_operand(t, pc, a_desc, "tcgen05.mma a-desc") {
            Err(e) => {
                return Err(e);
            },
            Ok(v) => v,
        };
        let b_raw = match self.concrete_operand(t, pc, b_desc, "tcgen05.mma b-desc") {
            Err(e) => {
                return Err(e);
            },
            Ok(v) => v,
        };
        let a = match matrix_desc(pc, a_raw as u64, "a-desc") {
            Err(e) => {
                return Err(e);
            },
            Ok(v) => v,
        };
        let b = match matrix_desc(pc, b_raw as u64, "b-desc") {
            Err(e) => {
                return Err(e);
            },
            Ok(v) => v,
        };
        if a.absolute_leading_stride || b.absolute_leading_stride {
            return Err(
                unsupported(
                    pc,
                    "tcgen05.mma's absolute leading-dimension stride mode (sm_103a only) is not modeled",
                ),
            );
        }
        if a.base_offset != 0 || b.base_offset != 0 {
            return Err(
                unsupported(
                    pc,
                    "tcgen05.mma with a nonzero matrix-descriptor base offset is not modeled",
                ),
            );
        }
        Ok((a, b))
    }

    /// Writes the product of two operands, on top of the accumulator if asked
    /// to.
    pub(crate) fn mma_product(
        &mut self,
        t: ThreadId,
        pc: InstrId,
        kind: Tcgen05MmaKind,
        d_base: &Operand,
        d_offset: i64,
        a: &Vec<ExprId>,
        b: &Vec<ExprId>,
        n: u32,
        disable: &Vec<Operand>,
        enable_input_d: &Operand,
    ) -> (r: EvalResult<()>)
        requires
            old(self).wf(),
            old(self).has(t),
            n <= 512,
            128 * k_dim(kind) == a@.len(),
            n * k_dim(kind) == b@.len(),
        ensures
            final(self).wf(),
            final(self).setup == old(self).setup,
            final(self)@.pace() == old(self)@.pace(),
            (final(self)@, r) == old(self)@.mma_product(
                t,
                pc,
                kind,
                *d_base,
                d_offset,
                a@,
                b@,
                n,
                disable@,
                *enable_input_d,
            ),
    {
        reveal(Machine::mma_product);
        let enable = match self.concrete_operand(
            t,
            pc,
            enable_input_d,
            "tcgen05.mma enable-input-d",
        ) {
            Err(e) => {
                return Err(e);
            },
            Ok(v) => v,
        };
        let base = match self.effective_addr(t, pc, d_base, d_offset) {
            Err(e) => {
                return Err(e);
            },
            Ok(v) => v,
        };
        let masks = match self.lane_masks(t, pc, disable) {
            Err(e) => {
                return Err(e);
            },
            Ok(v) => v,
        };
        self.mma_rows(t, pc, base as u32, enable != 0, &masks, a, b, n as u64, k_dim(kind))
    }

    /// `tcgen05.mma`: `D = A*B + D`, or `A*B`, into Tensor Memory.
    pub(crate) fn tcgen05_mma(
        &mut self,
        t: ThreadId,
        pc: InstrId,
        kind: Tcgen05MmaKind,
        d_base: &Operand,
        d_offset: i64,
        a_desc: &Operand,
        b_desc: &Operand,
        idesc: &Operand,
        disable: &Vec<Operand>,
        enable_input_d: &Operand,
    ) -> (r: EvalResult<()>)
        requires
            old(self).wf(),
            old(self).has(t),
        ensures
            final(self).wf(),
            final(self).setup == old(self).setup,
            final(self)@.pace() == old(self)@.pace(),
            (final(self)@, r) == old(self)@.tcgen05_mma(
                t,
                pc,
                kind,
                *d_base,
                d_offset,
                *a_desc,
                *b_desc,
                *idesc,
                disable@,
                *enable_input_d,
            ),
    {
        reveal(Machine::tcgen05_mma);
        let raw = match self.concrete_operand(t, pc, idesc, "tcgen05.mma idesc") {
            Err(e) => {
                return Err(e);
            },
            Ok(v) => v,
        };
        let formats = match self.mma_form(t, pc, kind, raw as u32) {
            Err(e) => {
                return Err(e);
            },
            Ok(v) => v,
        };
        let id: InstructionDescriptor = decode_instruction_descriptor(raw as u32);
        let descs = match self.mma_descs(t, pc, a_desc, b_desc) {
            Err(e) => {
                return Err(e);
            },
            Ok(v) => v,
        };
        let a = match self.operand_matrix(t, pc, descs.0, id.transpose_a, formats.0, 128, kind) {
            Err(e) => {
                return Err(e);
            },
            Ok(v) => v,
        };
        proof { lemma_columns_bound(raw as u32); }
        let b = match self.operand_matrix(t, pc, descs.1, id.transpose_b, formats.1, id.n, kind) {
            Err(e) => {
                return Err(e);
            },
            Ok(v) => v,
        };
        self.mma_product(t, pc, kind, d_base, d_offset, &a, &b, id.n, disable, enable_input_d)
    }
}

} // verus!
