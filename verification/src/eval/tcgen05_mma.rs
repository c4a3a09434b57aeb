//! `tcgen05.mma` decoding: the instruction descriptor and the shared-memory
//! matrix descriptor, both packed bit-fields in ordinary registers.
//!
//! [`swizzled_element_addr`] turns a decoded [`MatrixDescriptor`] into an
//! actual shared-memory byte address, for all swizzle modes with a zero base
//! offset.

use vstd::arithmetic::div_mod::*;
use vstd::arithmetic::power2::*;
use vstd::prelude::*;

use crate::bit_field::{field, field_of};
use crate::lowered::Tcgen05MmaKind;

verus! {

/// Decoded instruction descriptor of `.kind::f16`.
#[derive(Debug, Clone, Copy, PartialEq, Eq, Structural)]
pub struct InstructionDescriptor {
    pub sparse: bool,
    /// Matrix D element type: `false` = f16, `true` = f32.
    pub dtype_f32: bool,
    /// Matrix A element type: `false` = f16, `true` = bf16.
    pub atype_bf16: bool,
    /// Matrix B element type: `false` = f16, `true` = bf16.
    pub btype_bf16: bool,
    pub negate_a: bool,
    pub negate_b: bool,
    pub transpose_a: bool,
    pub transpose_b: bool,
    /// Columns of matrix B (the field stores `N >> 3`).
    pub n: u32,
    /// Rows of matrix A (the field stores `M >> 4`).
    pub m: u32,
}

pub open spec fn spec_instruction_descriptor(idesc: u32) -> InstructionDescriptor {
    let x = idesc as nat;
    InstructionDescriptor {
        sparse: field_of(x, 2, 1) != 0,
        dtype_f32: field_of(x, 4, 2) != 0,
        atype_bf16: field_of(x, 7, 3) != 0,
        btype_bf16: field_of(x, 10, 3) != 0,
        negate_a: field_of(x, 13, 1) != 0,
        negate_b: field_of(x, 14, 1) != 0,
        transpose_a: field_of(x, 15, 1) != 0,
        transpose_b: field_of(x, 16, 1) != 0,
        n: (field_of(x, 17, 6) * 8) as u32,
        m: (field_of(x, 24, 5) * 16) as u32,
    }
}

/// Decode a `.kind::f16` instruction descriptor. Every 32-bit value decodes
/// to some descriptor; validating the fields against what is modeled is the
/// caller's job.
pub fn decode_instruction_descriptor(idesc: u32) -> (r: InstructionDescriptor)
    ensures
        r == spec_instruction_descriptor(idesc),
{
    proof {
        lemma2_to64();
    }
    let x: u64 = idesc as u64;
    InstructionDescriptor {
        sparse: field(x, 2, 1) != 0,
        dtype_f32: field(x, 4, 2) != 0,
        atype_bf16: field(x, 7, 3) != 0,
        btype_bf16: field(x, 10, 3) != 0,
        negate_a: field(x, 13, 1) != 0,
        negate_b: field(x, 14, 1) != 0,
        transpose_a: field(x, 15, 1) != 0,
        transpose_b: field(x, 16, 1) != 0,
        n: (field(x, 17, 6) * 8) as u32,
        m: (field(x, 24, 5) * 16) as u32,
    }
}

/// Swizzling mode of a shared-memory matrix descriptor.
#[derive(Debug, Clone, Copy, PartialEq, Eq, Structural)]
pub enum SwizzleMode {
    NoSwizzle,
    Swizzle128BWith32BAtomicity,
    Swizzle128B,
    Swizzle64B,
    Swizzle32B,
}

/// Decoded shared-memory matrix descriptor. The offsets are byte values.
#[derive(Debug, Clone, Copy, PartialEq, Eq, Structural)]
pub struct MatrixDescriptor {
    pub start_addr: u64,
    pub leading_dim_byte_offset: u64,
    pub stride_dim_byte_offset: u64,
    pub base_offset: u8,
    /// Leading-dimension stride mode: `false` = relative byte offset, `true` =
    /// absolute byte address.
    pub absolute_leading_stride: bool,
    pub swizzle_mode: SwizzleMode,
}

pub open spec fn spec_decode_encoded_offset(field: u64) -> u64 {
    (field * 16) as u64
}

/// A 14-bit field holds a byte offset without its low four bits.
#[verifier::when_used_as_spec(spec_decode_encoded_offset)]
pub(crate) fn decode_encoded_offset(field: u64) -> (r: u64)
    requires
        field < 0x4000,
    ensures
        r == spec_decode_encoded_offset(field),
        r == field * 16,
{
    field * 16
}

/// The swizzle mode of the three-bit field; three of its values are invalid.
pub open spec fn spec_swizzle_mode(code: nat) -> Option<SwizzleMode> {
    if code == 0 {
        Some(SwizzleMode::NoSwizzle)
    } else if code == 1 {
        Some(SwizzleMode::Swizzle128BWith32BAtomicity)
    } else if code == 2 {
        Some(SwizzleMode::Swizzle128B)
    } else if code == 4 {
        Some(SwizzleMode::Swizzle64B)
    } else if code == 6 {
        Some(SwizzleMode::Swizzle32B)
    } else {
        None
    }
}

pub open spec fn spec_matrix_descriptor(desc: u64) -> Result<MatrixDescriptor, u8> {
    let x = desc as nat;
    match spec_swizzle_mode(field_of(x, 61, 3)) {
        Some(swizzle_mode) => Ok(
            MatrixDescriptor {
                start_addr: (field_of(x, 0, 14) * 16) as u64,
                leading_dim_byte_offset: (field_of(x, 16, 14) * 16) as u64,
                stride_dim_byte_offset: (field_of(x, 32, 14) * 16) as u64,
                base_offset: field_of(x, 49, 3) as u8,
                absolute_leading_stride: field_of(x, 52, 1) != 0,
                swizzle_mode,
            },
        ),
        None => Err(field_of(x, 61, 3) as u8),
    }
}

/// Decode a 64-bit shared-memory matrix descriptor. Fails (returning the raw
/// field) only on the invalid encodings of the swizzle mode.
pub fn decode_matrix_descriptor(desc: u64) -> (r: Result<MatrixDescriptor, u8>)
    ensures
        r == spec_matrix_descriptor(desc),
{
    proof {
        lemma2_to64();
    }
    let code: u64 = field(desc, 61, 3);
    let swizzle_mode = if code == 0 {
        SwizzleMode::NoSwizzle
    } else if code == 1 {
        SwizzleMode::Swizzle128BWith32BAtomicity
    } else if code == 2 {
        SwizzleMode::Swizzle128B
    } else if code == 4 {
        SwizzleMode::Swizzle64B
    } else if code == 6 {
        SwizzleMode::Swizzle32B
    } else {
        return Err(code as u8);
    };
    Ok(
        MatrixDescriptor {
            start_addr: decode_encoded_offset(field(desc, 0, 14)),
            leading_dim_byte_offset: decode_encoded_offset(field(desc, 16, 14)),
            stride_dim_byte_offset: decode_encoded_offset(field(desc, 32, 14)),
            base_offset: field(desc, 49, 3) as u8,
            absolute_leading_stride: field(desc, 52, 1) != 0,
            swizzle_mode,
        },
    )
}

/// One 16-byte swizzle "cell": the unit the permutation operates on,
/// regardless of the matrix's own element size.
pub const CELL_BYTES: u64 = 16;

/// `(R, W)` of a swizzled mode: `R` = rows of one atom along the stride
/// dimension, `W` = cells of one atom along the leading dimension.
pub open spec fn atom_rows(mode: SwizzleMode) -> nat {
    if mode == SwizzleMode::Swizzle128BWith32BAtomicity {
        4
    } else {
        8
    }
}

/// See [`atom_rows`].
pub open spec fn atom_cells(mode: SwizzleMode) -> nat {
    match mode {
        SwizzleMode::Swizzle32B => 2,
        SwizzleMode::Swizzle64B => 4,
        _ => 8,
    }
}

pub(crate) fn atom_shape(mode: SwizzleMode) -> (r: (u64, u64))
    requires
        mode != SwizzleMode::NoSwizzle,
    ensures
        r.0 == atom_rows(mode),
        r.1 == atom_cells(mode),
{
    match mode {
        SwizzleMode::Swizzle32B => (8, 2),
        SwizzleMode::Swizzle64B => (8, 4),
        SwizzleMode::Swizzle128BWith32BAtomicity => (4, 8),
        _ => (8, 8),
    }
}

/// The cell of an atom that a row's logical cell is placed in.
pub open spec fn swizzled_cell(mode: SwizzleMode, atom_row: nat, atom_cell: nat) -> u64 {
    atom_cell as u64 ^ ((atom_row * atom_cells(mode)) / atom_rows(mode)) as u64
}

/// The shared-memory byte address of one matrix element: atoms tile along the
/// stride and the leading dimension by the descriptor's offsets, and cells are
/// permuted within an atom. Without a swizzle the layout is linear.
pub open spec fn element_addr(
    desc: MatrixDescriptor,
    stride_idx: nat,
    leading_idx: nat,
    elem_bytes: nat,
) -> nat {
    let cell_elems = 16nat / elem_bytes;
    let cell = leading_idx / cell_elems;
    let elem_in_cell = leading_idx % cell_elems;
    let r = atom_rows(desc.swizzle_mode);
    let w = atom_cells(desc.swizzle_mode);
    if desc.swizzle_mode == SwizzleMode::NoSwizzle {
        desc.start_addr as nat + stride_idx * desc.stride_dim_byte_offset as nat + cell * 16
            + elem_in_cell * elem_bytes
    } else {
        desc.start_addr as nat + (stride_idx / r) * desc.stride_dim_byte_offset as nat + (cell / w)
            * desc.leading_dim_byte_offset as nat + (stride_idx % r) * (w * 16) + swizzled_cell(
            desc.swizzle_mode,
            stride_idx % r,
            cell % w,
        ) as nat * 16 + elem_in_cell * elem_bytes
    }
}

/// Compute the shared-memory byte address of one matrix element addressed via
/// `desc`: `stride_idx` is its index along the stride dimension, `leading_idx`
/// along the leading dimension, both in elements. The base offset is taken to
/// be zero.
pub fn swizzled_element_addr(
    desc: &MatrixDescriptor,
    stride_idx: u64,
    leading_idx: u64,
    elem_bytes: u64,
) -> (r: u64)
    requires
        1 <= elem_bytes <= 16,
        element_addr(*desc, stride_idx as nat, leading_idx as nat, elem_bytes as nat) <= u64::MAX,
    ensures
        r == element_addr(*desc, stride_idx as nat, leading_idx as nat, elem_bytes as nat),
{
    proof {
        assert(16u64 / elem_bytes >= 1) by (nonlinear_arith)
            requires
                1 <= elem_bytes <= 16,
        ;
    }
    let cell_elems: u64 = CELL_BYTES / elem_bytes;
    let cell: u64 = leading_idx / cell_elems;
    let elem_in_cell: u64 = leading_idx % cell_elems;
    let ghost so = desc.stride_dim_byte_offset as int;
    let ghost lo = desc.leading_dim_byte_offset as int;
    proof {
        lemma_mul_nonneg(elem_in_cell as int, elem_bytes as int);
    }
    if desc.swizzle_mode == SwizzleMode::NoSwizzle {
        proof {
            lemma_mul_nonneg(stride_idx as int, so);
        }
        return desc.start_addr + stride_idx * desc.stride_dim_byte_offset + cell * CELL_BYTES
            + elem_in_cell * elem_bytes;
    }
    let (r, w) = atom_shape(desc.swizzle_mode);
    let row_bytes: u64 = w * CELL_BYTES;
    let atom_row: u64 = stride_idx % r;
    let stride_atom: u64 = stride_idx / r;
    let atom_cell: u64 = cell % w;
    let leading_atom: u64 = cell / w;
    proof {
        assert(atom_row * w <= 64) by (nonlinear_arith)
            requires
                atom_row <= 8,
                w <= 8,
        ;
    }
    let key: u64 = (atom_row * w) / r;
    let swizzled: u64 = atom_cell ^ key;
    proof {
        lemma_mul_nonneg(stride_atom as int, so);
        lemma_mul_nonneg(leading_atom as int, lo);
        lemma_mul_nonneg(atom_row as int, row_bytes as int);
    }
    desc.start_addr + stride_atom * desc.stride_dim_byte_offset + leading_atom
        * desc.leading_dim_byte_offset + atom_row * row_bytes + swizzled * CELL_BYTES
        + elem_in_cell * elem_bytes
}

/// The address of one matrix element, if it lies in the address space.
pub fn element_addr_in_space(
    desc: &MatrixDescriptor,
    stride_idx: u64,
    leading_idx: u64,
    elem_bytes: u64,
) -> (r: Option<u64>)
    requires
        1 <= elem_bytes <= 16,
    ensures
        r == addr_in_space(*desc, stride_idx as nat, leading_idx as nat, elem_bytes as nat),
{
    proof {
        assert(16u64 / elem_bytes >= 1) by (nonlinear_arith)
            requires
                1 <= elem_bytes <= 16,
        ;
    }
    let limit: u128 = u64::MAX as u128;
    let cell_elems: u64 = CELL_BYTES / elem_bytes;
    let cell: u64 = leading_idx / cell_elems;
    let elem_in_cell: u64 = leading_idx % cell_elems;
    assert(elem_in_cell * elem_bytes <= 256) by (nonlinear_arith)
        requires
            0 <= elem_in_cell < cell_elems,
            cell_elems <= 16,
            1 <= elem_bytes <= 16,
    ;
    let (rows, cells): (u64, u64) = if desc.swizzle_mode == SwizzleMode::NoSwizzle {
        (1, 1)
    } else {
        atom_shape(desc.swizzle_mode)
    };
    let so: u64 = desc.stride_dim_byte_offset;
    let lo: u64 = desc.leading_dim_byte_offset;
    let strides: u64 = stride_idx / rows;
    let leads: u64 = if desc.swizzle_mode == SwizzleMode::NoSwizzle {
        0
    } else {
        cell / cells
    };
    let tail: u128 = if desc.swizzle_mode == SwizzleMode::NoSwizzle {
        cell as u128 * 16
    } else {
        let atom_row: u64 = stride_idx % rows;
        let atom_cell: u64 = cell % cells;
        assert(atom_row * cells <= 64) by (nonlinear_arith)
            requires
                atom_row <= 8,
                cells <= 8,
        ;
        let key: u64 = (atom_row * cells) / rows;
        assert(atom_row * (cells * 16) == (atom_row * cells) * 16) by (nonlinear_arith);
        (atom_row * (cells * CELL_BYTES)) as u128 + (atom_cell ^ key) as u128 * 16
    };
    assert(strides * so <= 0xFFFF_FFFF_FFFF_FFFF * 0xFFFF_FFFF_FFFF_FFFF) by (nonlinear_arith)
        requires
            0 <= strides <= 0xFFFF_FFFF_FFFF_FFFF,
            0 <= so <= 0xFFFF_FFFF_FFFF_FFFF,
    ;
    assert(leads * lo <= 0xFFFF_FFFF_FFFF_FFFF * 0xFFFF_FFFF_FFFF_FFFF) by (nonlinear_arith)
        requires
            0 <= leads <= 0xFFFF_FFFF_FFFF_FFFF,
            0 <= lo <= 0xFFFF_FFFF_FFFF_FFFF,
    ;
    proof {
        lemma_mul_nonneg(strides as int, so as int);
        lemma_mul_nonneg(leads as int, lo as int);
        lemma_mul_nonneg(elem_in_cell as int, elem_bytes as int);
    }
    let along_stride: u128 = strides as u128 * so as u128;
    let along_leading: u128 = leads as u128 * lo as u128;
    assert(leads == 0 ==> leads * lo == 0) by (nonlinear_arith);
    assert(desc.swizzle_mode == SwizzleMode::NoSwizzle ==> strides == stride_idx);
    if along_stride > limit || along_leading > limit {
        return None;
    }
    let addr: u128 = desc.start_addr as u128 + along_stride + along_leading + tail + (elem_in_cell
        * elem_bytes) as u128;
    if addr > limit {
        None
    } else {
        Some(addr as u64)
    }
}

/// [`element_addr`], unless it lies past the address space.
pub open spec fn addr_in_space(
    desc: MatrixDescriptor,
    stride_idx: nat,
    leading_idx: nat,
    elem_bytes: nat,
) -> Option<u64> {
    let addr = element_addr(desc, stride_idx, leading_idx, elem_bytes);
    if addr > u64::MAX {
        None
    } else {
        Some(addr as u64)
    }
}

/// Which dimension of an operand is contiguous in memory.
#[derive(Debug, Clone, Copy, PartialEq, Eq, Structural)]
pub enum Major {
    /// The dimension that is summed over.
    K,
    /// The operand's own dimension.
    Mn,
}

pub open spec fn spec_major(transpose: bool) -> Major {
    if transpose {
        Major::Mn
    } else {
        Major::K
    }
}

/// The major-ness of an operand, from its descriptor's transpose bit.
#[verifier::when_used_as_spec(spec_major)]
pub fn major_of(transpose: bool) -> (r: Major)
    ensures
        r == spec_major(transpose),
{
    if transpose {
        Major::Mn
    } else {
        Major::K
    }
}

/// Element format of an operand in shared memory.
#[derive(Debug, Clone, Copy, PartialEq, Eq, Structural)]
pub enum OperandFormat {
    F16,
    E4m3,
    E5m2,
}

impl OperandFormat {
    pub open spec fn spec_decode(kind: Tcgen05MmaKind, code: u32) -> Option<OperandFormat> {
        match kind {
            Tcgen05MmaKind::F16 => if code == 0 {
                Some(OperandFormat::F16)
            } else {
                None
            },
            Tcgen05MmaKind::F8f6f4 => if code == 0 {
                Some(OperandFormat::E4m3)
            } else if code == 1 {
                Some(OperandFormat::E5m2)
            } else {
                None
            },
        }
    }

    /// The format of a type field under an instruction kind, if modeled.
    #[verifier::when_used_as_spec(spec_decode)]
    pub fn decode(kind: Tcgen05MmaKind, code: u32) -> (r: Option<OperandFormat>)
        ensures
            r == Self::spec_decode(kind, code),
    {
        match kind {
            Tcgen05MmaKind::F16 => if code == 0 {
                Some(OperandFormat::F16)
            } else {
                None
            },
            Tcgen05MmaKind::F8f6f4 => if code == 0 {
                Some(OperandFormat::E4m3)
            } else if code == 1 {
                Some(OperandFormat::E5m2)
            } else {
                None
            },
        }
    }

    pub open spec fn spec_bytes(self) -> u64 {
        if self == OperandFormat::F16 {
            2
        } else {
            1
        }
    }

    /// Width of one element, in bytes.
    #[verifier::when_used_as_spec(spec_bytes)]
    pub fn bytes(self) -> (r: u64)
        ensures
            r == self.spec_bytes(),
            1 <= r <= 2,
    {
        if self == OperandFormat::F16 {
            2
        } else {
            1
        }
    }
}

pub open spec fn spec_k_dim(kind: Tcgen05MmaKind) -> u64 {
    match kind {
        Tcgen05MmaKind::F16 => 16,
        Tcgen05MmaKind::F8f6f4 => 32,
    }
}

/// The summed-over extent, fixed by the instruction kind.
#[verifier::when_used_as_spec(spec_k_dim)]
pub fn k_dim(kind: Tcgen05MmaKind) -> (r: u64)
    ensures
        r == spec_k_dim(kind),
        r == 16 || r == 32,
{
    match kind {
        Tcgen05MmaKind::F16 => 16,
        Tcgen05MmaKind::F8f6f4 => 32,
    }
}

/// Where element `(mn, k)` of an operand lies: the contiguous dimension is
/// the leading one.
pub open spec fn operand_addr(
    desc: MatrixDescriptor,
    major: Major,
    mn: nat,
    k: nat,
    elem_bytes: nat,
) -> Option<u64> {
    match major {
        Major::K => addr_in_space(desc, mn, k, elem_bytes),
        Major::Mn => addr_in_space(desc, k, mn, elem_bytes),
    }
}

/// Computes where an operand's element lies.
pub fn operand_element_addr(
    desc: &MatrixDescriptor,
    major: Major,
    mn: u64,
    k: u64,
    elem_bytes: u64,
) -> (r:
    Option<u64>)
    requires
        1 <= elem_bytes <= 16,
    ensures
        r == operand_addr(*desc, major, mn as nat, k as nat, elem_bytes as nat),
{
    match major {
        Major::K => element_addr_in_space(desc, mn, k, elem_bytes),
        Major::Mn => element_addr_in_space(desc, k, mn, elem_bytes),
    }
}

proof fn lemma_mul_nonneg(a: int, b: int)
    requires
        a >= 0,
        b >= 0,
    ensures
        a * b >= 0,
{
    assert(a * b >= 0) by (nonlinear_arith)
        requires
            a >= 0,
            b >= 0,
    ;
}

// ---------------------------------------------------------------------------
// Laws
// ---------------------------------------------------------------------------

/// Crossing into the next atom along the stride dimension adds exactly one
/// stride offset.
pub proof fn crossing_a_stride_atom(
    desc: MatrixDescriptor,
    stride_idx: nat,
    leading_idx: nat,
    elem_bytes: nat,
)
    requires
        desc.swizzle_mode != SwizzleMode::NoSwizzle,
        1 <= elem_bytes <= 16,
    ensures
        element_addr(
            desc,
            stride_idx + atom_rows(desc.swizzle_mode),
            leading_idx,
            elem_bytes,
        ) == element_addr(desc, stride_idx, leading_idx, elem_bytes)
            + desc.stride_dim_byte_offset,
{
    let r = atom_rows(desc.swizzle_mode) as int;
    let s = stride_idx as int;
    let so = desc.stride_dim_byte_offset as int;
    assert((s + r) / r == s / r + 1 && (s + r) % r == s % r);
    let q = s / r;
    assert((q + 1) * so == q * so + so) by (nonlinear_arith);
}

/// Crossing into the next atom along the leading dimension adds exactly one
/// leading offset.
pub proof fn crossing_a_leading_atom(
    desc: MatrixDescriptor,
    stride_idx: nat,
    leading_idx: nat,
    elem_bytes: nat,
)
    requires
        desc.swizzle_mode != SwizzleMode::NoSwizzle,
        1 <= elem_bytes <= 16,
    ensures
        element_addr(
            desc,
            stride_idx,
            leading_idx + atom_cells(desc.swizzle_mode) * (16nat / elem_bytes),
            elem_bytes,
        ) == element_addr(desc, stride_idx, leading_idx, elem_bytes)
            + desc.leading_dim_byte_offset,
{
    let w = atom_cells(desc.swizzle_mode) as int;
    let e = 16int / elem_bytes as int;
    assert(e >= 1) by (nonlinear_arith)
        requires
            e == 16int / elem_bytes as int,
            1 <= elem_bytes <= 16,
    ;
    let l = leading_idx as int;
    let c = l / e;
    lemma_fundamental_div_mod(l, e);
    let m = l % e;
    assert(l + w * e == (c + w) * e + m) by (nonlinear_arith)
        requires
            l == e * c + m,
    ;
    lemma_fundamental_div_mod_converse(l + w * e, e, c + w, m);
    assert((c + w) / w == c / w + 1 && (c + w) % w == c % w);
    let lo = desc.leading_dim_byte_offset as int;
    let q = c / w;
    assert((q + 1) * lo == q * lo + lo) by (nonlinear_arith);
}

/// On the diagonal of an atom as wide as it is deep the permutation lands in
/// the row's first cell.
pub proof fn the_diagonal_lands_in_cell_zero(row: nat)
    requires
        row < 8,
    ensures
        swizzled_cell(SwizzleMode::Swizzle128B, row, row) == 0,
{
    let a = row as u64;
    assert((row * 8) / 8 == row);
    assert(a ^ a == 0) by (bit_vector);
}

/// Within a row of an atom the permutation moves different cells to different
/// places, and keeps them inside the atom.
pub proof fn the_permutation_is_injective(mode: SwizzleMode, row: nat, c1: nat, c2: nat)
    requires
        mode != SwizzleMode::NoSwizzle,
        row < atom_rows(mode),
        c1 < atom_cells(mode),
        c2 < atom_cells(mode),
    ensures
        swizzled_cell(mode, row, c1) == swizzled_cell(mode, row, c2) ==> c1 == c2,
        swizzled_cell(mode, row, c1) < atom_cells(mode),
{
    let w = atom_cells(mode);
    let k = ((row * w) / atom_rows(mode)) as u64;
    let a = c1 as u64;
    let b = c2 as u64;
    assert((row * w) / atom_rows(mode) < w) by (nonlinear_arith)
        requires
            row < atom_rows(mode),
            w > 0,
            atom_rows(mode) > 0,
    ;
    assert(a ^ k == b ^ k ==> a == b) by (bit_vector);
    assert(a < 2 && k < 2 ==> a ^ k < 2) by (bit_vector);
    assert(a < 4 && k < 4 ==> a ^ k < 4) by (bit_vector);
    assert(a < 8 && k < 8 ==> a ^ k < 8) by (bit_vector);
}

impl SwizzleMode {
    pub open spec fn spec_debug_name(&self) -> &'static str {
        match self {
            SwizzleMode::NoSwizzle => "None",
            SwizzleMode::Swizzle128BWith32BAtomicity => "Swizzle128BWith32BAtomicity",
            SwizzleMode::Swizzle128B => "Swizzle128B",
            SwizzleMode::Swizzle64B => "Swizzle64B",
            SwizzleMode::Swizzle32B => "Swizzle32B",
        }
    }

    /// The name of the variant.
    #[verifier::when_used_as_spec(spec_debug_name)]
    pub fn debug_name(&self) -> (r: &'static str)
        ensures
            r == self.spec_debug_name(),
    {
        match self {
            SwizzleMode::NoSwizzle => "None",
            SwizzleMode::Swizzle128BWith32BAtomicity => "Swizzle128BWith32BAtomicity",
            SwizzleMode::Swizzle128B => "Swizzle128B",
            SwizzleMode::Swizzle64B => "Swizzle64B",
            SwizzleMode::Swizzle32B => "Swizzle32B",
        }
    }
}

} // verus!
