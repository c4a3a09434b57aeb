//! Evaluation errors.
//!
//! Instruction ids are carried so that a driver can map errors back to source
//! spans.

use vstd::prelude::*;
use vstd::string::*;

use crate::eval::ThreadId;
use crate::eval::memory::GranuleKind;
use crate::eval::tcgen05_mma::SwizzleMode;
use crate::lowered::{BinOp, InstrId, MemSpace, Tcgen05MmaKind, UnaryOp};
use crate::symbols::{RegId, SpecialRegKind};
use crate::tensor_core::MmaShape;
use crate::tensor_map::{TensorSwizzleAtomicity, TensorSwizzleMode};
use crate::text::{
    dec_text, hex_text, int_text, padded_hex_text, push_dec, push_hex, push_int, push_padded_hex,
};
use crate::types::{RegClass, ScalarType};

verus! {

/// One side of a memory conflict.
#[derive(Debug, Clone, Copy, PartialEq, Eq, Structural)]
pub struct AccessSite {
    pub thread: ThreadId,
    pub pc: InstrId,
    pub is_write: bool,
}

proof fn lemma_no_text()
    ensures
        ""@ == Seq::<char>::empty(),
        forall|t: Seq<char>| #[trigger] (Seq::<char>::empty() + t) == t,
{
    reveal_strlit("");
    assert(""@ =~= Seq::<char>::empty());
    assert forall|t: Seq<char>| #[trigger] (Seq::<char>::empty() + t) == t by {
        assert(Seq::<char>::empty() + t =~= t);
    }
}

pub open spec fn thread_text(t: ThreadId) -> Seq<char> {
    "t"@ + dec_text(t.0 as nat)
}

fn push_thread(s: &mut String, t: ThreadId)
    ensures
        final(s)@ == old(s)@ + thread_text(t),
{
    s.append("t");
    push_dec(s, t.0 as u128);
    assert(s@ =~= old(s)@ + thread_text(t));
}

pub open spec fn pc_text(pc: InstrId) -> Seq<char> {
    "pc:"@ + dec_text(pc.0 as nat)
}

fn push_pc(s: &mut String, pc: InstrId)
    ensures
        final(s)@ == old(s)@ + pc_text(pc),
{
    s.append("pc:");
    push_dec(s, pc.0 as u128);
    assert(s@ =~= old(s)@ + pc_text(pc));
}

pub open spec fn spec_class_prefix(c: RegClass) -> &'static str {
    match c {
        RegClass::Pred => "%p",
        RegClass::Bits8 => "%rc",
        RegClass::Bits16 => "%rs",
        RegClass::Bits32 => "%r",
        RegClass::Bits64 => "%rd",
        RegClass::Bits128 => "%rq",
    }
}

/// How register names of a class begin.
#[verifier::when_used_as_spec(spec_class_prefix)]
fn class_prefix(c: RegClass) -> (r: &'static str)
    ensures
        r == spec_class_prefix(c),
{
    match c {
        RegClass::Pred => "%p",
        RegClass::Bits8 => "%rc",
        RegClass::Bits16 => "%rs",
        RegClass::Bits32 => "%r",
        RegClass::Bits64 => "%rd",
        RegClass::Bits128 => "%rq",
    }
}

pub open spec fn reg_text(r: RegId) -> Seq<char> {
    spec_class_prefix(r.class)@ + dec_text(r.index.0 as nat)
}

pub(crate) fn push_reg(s: &mut String, r: RegId)
    ensures
        final(s)@ == old(s)@ + reg_text(r),
{
    s.append(class_prefix(r.class));
    push_dec(s, r.index.0 as u128);
    assert(s@ =~= old(s)@ + reg_text(r));
}

pub open spec fn shape_text(x: MmaShape) -> Seq<char> {
    "m"@ + dec_text(x.m as nat) + "n"@ + dec_text(x.n as nat) + "k"@ + dec_text(x.k as nat)
}

fn push_shape(s: &mut String, x: MmaShape)
    ensures
        final(s)@ == old(s)@ + shape_text(x),
{
    s.append("m");
    push_dec(s, x.m as u128);
    s.append("n");
    push_dec(s, x.n as u128);
    s.append("k");
    push_dec(s, x.k as u128);
    assert(s@ =~= old(s)@ + shape_text(x));
}

pub open spec fn site_text(a: AccessSite) -> Seq<char> {
    (if a.is_write {
        "write"@
    } else {
        "read"@
    }) + " by "@ + thread_text(a.thread) + " at "@ + pc_text(a.pc)
}

fn push_site(s: &mut String, a: AccessSite)
    ensures
        final(s)@ == old(s)@ + site_text(a),
{
    if a.is_write {
        s.append("write");
    } else {
        s.append("read");
    }
    s.append(" by ");
    push_thread(s, a.thread);
    s.append(" at ");
    push_pc(s, a.pc);
    assert(s@ =~= old(s)@ + site_text(a));
}

impl AccessSite {
    /// The site as text.
    pub fn text(&self) -> (r: String)
        ensures
            r@ == site_text(*self),
    {
        let mut s = String::from_str("");
        proof {
            lemma_no_text();
        }
        push_site(&mut s, *self);
        s
    }
}

fn push_text(s: &mut String, t: &String)
    ensures
        final(s)@ == old(s)@ + t@,
{
    s.append(t.as_str());
}

/// What is not modeled.
#[allow(inconsistent_fields)]
#[derive(Debug, Clone, Copy, PartialEq, Eq)]
pub enum Detail {
    /// A fixed reason.
    Text { text: &'static str },
    /// A `cp.async` source size beyond its slot.
    CopySizeOutOfRange { n: i64, cp_size: u64 },
    /// A `cp.async` source size that splits a word.
    CopySizeNotWords { real_bytes: u64 },
    /// A `prmt` selector naming a byte that a scalar does not have.
    PrmtByte { selector: u16, byte: u16 },
    /// A `lop3` XOR of a symbolic value beyond its sign bit.
    Lop3Mask { mask: u32 },
    /// A `lop3` table other than XOR on a symbolic value.
    Lop3Lut { lut: i64 },
    /// A high-half product too wide to represent.
    HighHalfWidth { what: &'static str, bits: u32 },
    /// An exit with asynchronous copies in flight.
    PendingCopies { count: u64 },
    /// A phase parity other than 0 and 1.
    PhaseParity { value: i64 },
    /// An operand type field with no modeled format.
    MmaTypeField { kind: Tcgen05MmaKind, operand: &'static str, code: u32 },
    /// An unmodeled row count.
    MmaRows { m: u32 },
    /// An invalid swizzle encoding of a matrix descriptor.
    MmaSwizzle { operand: &'static str, encoding: u8 },
    /// A packed pair shifted by anything but one lane.
    PairShift { op: BinOp, ty: ScalarType },
    /// A byte-quad XOR beyond the sign bits.
    QuadXorMask { mask: u32 },
    /// A tensor-map field value outside its range.
    FieldOutOfRange { field: &'static str, value: i64 },
    /// A tensor-map rank that disagrees with the coordinates.
    TensorRank { rank: u64, coords: u64 },
    /// An unmodeled swizzle and atomicity pair.
    TensorSwizzle { swizzle: TensorSwizzleMode, atomicity: TensorSwizzleAtomicity },
    /// A box row that is no whole number of cells.
    TensorCells { elements: u32, bytes: u64 },
    /// A box row wider than a swizzle atom.
    TensorAtom { cells: u64, mode: SwizzleMode, atom: u64 },
    /// An unmodeled swizzle mode.
    TensorMode { mode: SwizzleMode },
    /// A destination off the swizzle pattern's boundary.
    TensorAlignment { addr: u64, mode: SwizzleMode, atom: u64 },
    /// A count below zero.
    Negative { what: &'static str, value: i64 },
    /// A special register with no modeled value.
    SpecialRegister { kind: SpecialRegKind },
    /// A byte access to a space that has no memory.
    SpaceAccess { space: MemSpace },
    /// An integer division or remainder by zero.
    ByZero { what: &'static str, thread: ThreadId },
    /// An operation with no meaning on predicates.
    OnPredicates { op: BinOp },
    /// A function outside the modeled fragment.
    Transcendental { op: UnaryOp },
    /// A packed pair stored below its register's width.
    PairStore { bits: u32, thread: ThreadId },
    /// A symbolic value stored below its register's width.
    NarrowStore { bits: u32, reg_bits: u32, thread: ThreadId },
    /// A symbolic value sign-extended by a load.
    NarrowLoad { bits: u32, reg_bits: u32, thread: ThreadId },
    /// A byte that encodes NaN.
    NanByte { what: &'static str, byte: u8 },
    /// A conversion from a float to an integer.
    FloatToInt { src: ScalarType, dst: ScalarType },
    /// A matrix position that no lane holds.
    FragmentHole { row: u32, col: u32 },
    /// A destination list of the wrong length.
    LdmatrixRegisters { num: u32, found: u64 },
    /// An unmodeled matrix shape.
    UnsupportedShape { what: &'static str, shape: MmaShape },
    /// An instruction with no warp-wide execution.
    WarpDispatch { kind: &'static str },
    /// A matrix footprint that leaves the address space.
    WmmaFootprint { base: u64, stride: u64 },
    /// An unmodeled matrix element type.
    WmmaElement { ty: ScalarType },
}

impl Detail {
    pub open spec fn spec_text(&self) -> Seq<char> {
        match self {
            Detail::Text { text } => (*text)@,
            Detail::CopySizeOutOfRange { n, cp_size } => "cp.async src-size "@
                + int_text(*n as int)
                + " out of range [0, "@
                + dec_text(*cp_size as nat)
                + "]"@,
            Detail::CopySizeNotWords { real_bytes } => "cp.async src-size "@
                + dec_text(*real_bytes as nat)
                + " is not a multiple of 4 bytes"@,
            Detail::PrmtByte { selector, byte } => "prmt selector "@
                + padded_hex_text(*selector as nat, 4)
                + ": byte "@
                + dec_text(*byte as nat)
                + " is unavailable from a scalar FP8 input"@,
            Detail::Lop3Mask { mask } => "lop3.b32 XOR changes bits other than the f32 sign bit ("@
                + padded_hex_text(*mask as nat, 8)
                + ")"@,
            Detail::Lop3Lut { lut } => "lop3.b32 LUT "@
                + hex_text(*lut as u64 as nat)
                + " on a symbolic source (only XOR is modeled)"@,
            Detail::HighHalfWidth { what, bits } => (*what)@
                + " at width "@
                + dec_text(*bits as nat),
            Detail::PendingCopies { count } => "thread exited with "@
                + dec_text(*count as nat)
                + " async-copy operation(s) still pending (missing cp.async.wait_group/wait_all)"@,
            Detail::PhaseParity { value } => "mbarrier wait phaseParity "@
                + int_text(*value as int)
                + " (must be 0 or 1)"@,
            Detail::MmaTypeField { kind, operand, code } => "tcgen05.mma "@
                + kind.debug_name()@
                + " "@
                + (*operand)@
                + " type field "@
                + dec_text(*code as nat)
                + " is not modeled (bf16 and the 6/4-bit types are not; only f16 for .kind::f16 and e4m3/e5m2 for .kind::f8f6f4)"@,
            Detail::MmaRows { m } => "tcgen05.mma with M = "@
                + dec_text(*m as nat)
                + " is not modeled (only M = 128)"@,
            Detail::MmaSwizzle { operand, encoding } => "tcgen05.mma "@
                + (*operand)@
                + " has invalid swizzle-mode encoding "@
                + dec_text(*encoding as nat),
            Detail::PairShift { op, ty } => "packed pair shifted by other than a logical 32 ("@
                + op.debug_name()@
                + " on "@
                + ty.debug_name()@
                + ")"@,
            Detail::QuadXorMask { mask } => "packed byte-quad xor mask "@
                + padded_hex_text(*mask as nat, 8)
                + " changes more than an FP8 sign bit"@,
            Detail::FieldOutOfRange { field, value } => "tensormap ."@
                + (*field)@
                + " value "@
                + int_text(*value as int)
                + " out of range"@,
            Detail::TensorRank { rank, coords } => "cp.async.bulk.tensor: tensor-map rank "@
                + dec_text(*rank as nat)
                + " does not match "@
                + dec_text(*coords as nat)
                + " tensorCoords operand(s)"@,
            Detail::TensorSwizzle { swizzle, atomicity } => "cp.async.bulk.tensor: swizzle mode "@
                + swizzle.debug_name()@
                + " / atomicity "@
                + atomicity.debug_name()@
                + " combination not modeled"@,
            Detail::TensorCells { elements, bytes } => "cp.async.bulk.tensor: box_dim[0] ("@
                + dec_text(*elements as nat)
                + " elements, "@
                + dec_text(*bytes as nat)
                + " bytes) is not a whole number of 16-byte swizzle cells"@,
            Detail::TensorAtom { cells, mode, atom } => "cp.async.bulk.tensor: box_dim[0] spans "@
                + dec_text(*cells as nat)
                + " swizzle cells, more than one "@
                + mode.debug_name()@
                + " atom ("@
                + dec_text(*atom as nat)
                + " cells) - crossing a leading-dimension atom boundary is not modeled"@,
            Detail::TensorMode { mode } => "cp.async.bulk.tensor: swizzle mode "@
                + mode.debug_name()@
                + " not modeled"@,
            Detail::TensorAlignment { addr, mode, atom } => "cp.async.bulk.tensor: destination "@
                + hex_text(*addr as nat)
                + " is not aligned to the "@
                + mode.debug_name()@
                + " swizzle pattern's "@
                + dec_text(*atom as nat)
                + "-byte boundary (nonzero swizzle base offset not modeled)"@,
            Detail::Negative { what, value } => (*what)@
                + " is negative ("@
                + int_text(*value as int)
                + ")"@,
            Detail::SpecialRegister { kind } => "special register "@
                + kind.as_str()@,
            Detail::SpaceAccess { space } => space.debug_name()@
                + "-space memory access"@,
            Detail::ByZero { what, thread } => (*what)@
                + " by zero (thread "@
                + thread_text(*thread)
                + ")"@,
            Detail::OnPredicates { op } => op.as_str()@
                + " on predicates"@,
            Detail::Transcendental { op } => "transcendental "@
                + op.as_str()@,
            Detail::PairStore { bits, thread } => "packed pair stored at sub-register width ("@
                + dec_text(*bits as nat)
                + "-bit store, thread "@
                + thread_text(*thread)
                + ")"@,
            Detail::NarrowStore {
                bits,
                reg_bits,
                thread,
            } => "symbolic value stored at sub-register width ("@
                + dec_text(*bits as nat)
                + "-bit store of a "@
                + dec_text(*reg_bits as nat)
                + "-bit register, thread "@
                + thread_text(*thread)
                + ")"@,
            Detail::NarrowLoad {
                bits,
                reg_bits,
                thread,
            } => "symbolic value loaded at sub-register width ("@
                + dec_text(*bits as nat)
                + "-bit load into a "@
                + dec_text(*reg_bits as nat)
                + "-bit register, thread "@
                + thread_text(*thread)
                + ")"@,
            Detail::NanByte { what, byte } => (*what)@
                + ": source byte "@
                + hex_text(*byte as nat)
                + " encodes NaN, which Volta's real-valued model cannot represent"@,
            Detail::FloatToInt { src, dst } => "cvt float->int ("@
                + src.debug_name()@
                + " -> "@
                + dst.debug_name()@
                + ")"@,
            Detail::FragmentHole { row, col } => "incomplete fragment mapping at ("@
                + dec_text(*row as nat)
                + ", "@
                + dec_text(*col as nat)
                + ")"@,
            Detail::LdmatrixRegisters { num, found } => "ldmatrix x"@
                + dec_text(*num as nat)
                + " with "@
                + dec_text(*found as nat)
                + " destination registers"@,
            Detail::UnsupportedShape { what, shape } => (*what)@
                + " shape "@
                + shape_text(*shape),
            Detail::WarpDispatch { kind } => "warp-op dispatch for "@
                + (*kind)@,
            Detail::WmmaFootprint { base, stride } => "wmma footprint from base "@
                + hex_text(*base as nat)
                + " with stride "@
                + dec_text(*stride as nat)
                + " overflows the address space"@,
            Detail::WmmaElement { ty } => "wmma.load a/b with element type "@
                + ty.debug_name()@,
        }
    }

    /// The text shown to a user.
    pub fn text(&self) -> (r: String)
        ensures
            r@ == self.spec_text(),
    {
        let mut s = String::from_str("");
        proof {
            lemma_no_text();
        }
        match self {
            Detail::Text { text } => {
                s.append(*text);
            },
            Detail::CopySizeOutOfRange { n, cp_size } => {
                s.append("cp.async src-size ");
                push_int(&mut s, (*n) as i128);
                s.append(" out of range [0, ");
                push_dec(&mut s, (*cp_size) as u128);
                s.append("]");
            },
            Detail::CopySizeNotWords { real_bytes } => {
                s.append("cp.async src-size ");
                push_dec(&mut s, (*real_bytes) as u128);
                s.append(" is not a multiple of 4 bytes");
            },
            Detail::PrmtByte { selector, byte } => {
                s.append("prmt selector ");
                push_padded_hex(&mut s, (*selector) as u128, 4);
                s.append(": byte ");
                push_dec(&mut s, (*byte) as u128);
                s.append(" is unavailable from a scalar FP8 input");
            },
            Detail::Lop3Mask { mask } => {
                s.append("lop3.b32 XOR changes bits other than the f32 sign bit (");
                push_padded_hex(&mut s, (*mask) as u128, 8);
                s.append(")");
            },
            Detail::Lop3Lut { lut } => {
                s.append("lop3.b32 LUT ");
                push_hex(&mut s, (*lut) as u64 as u128);
                s.append(" on a symbolic source (only XOR is modeled)");
            },
            Detail::HighHalfWidth { what, bits } => {
                s.append(*what);
                s.append(" at width ");
                push_dec(&mut s, (*bits) as u128);
            },
            Detail::PendingCopies { count } => {
                s.append("thread exited with ");
                push_dec(&mut s, (*count) as u128);
                s.append(
                    " async-copy operation(s) still pending (missing cp.async.wait_group/wait_all)",
                );
            },
            Detail::PhaseParity { value } => {
                s.append("mbarrier wait phaseParity ");
                push_int(&mut s, (*value) as i128);
                s.append(" (must be 0 or 1)");
            },
            Detail::MmaTypeField { kind, operand, code } => {
                s.append("tcgen05.mma ");
                s.append(kind.debug_name());
                s.append(" ");
                s.append(*operand);
                s.append(" type field ");
                push_dec(&mut s, (*code) as u128);
                s.append(
                    " is not modeled (bf16 and the 6/4-bit types are not; only f16 for .kind::f16 and e4m3/e5m2 for .kind::f8f6f4)",
                );
            },
            Detail::MmaRows { m } => {
                s.append("tcgen05.mma with M = ");
                push_dec(&mut s, (*m) as u128);
                s.append(" is not modeled (only M = 128)");
            },
            Detail::MmaSwizzle { operand, encoding } => {
                s.append("tcgen05.mma ");
                s.append(*operand);
                s.append(" has invalid swizzle-mode encoding ");
                push_dec(&mut s, (*encoding) as u128);
            },
            Detail::PairShift { op, ty } => {
                s.append("packed pair shifted by other than a logical 32 (");
                s.append(op.debug_name());
                s.append(" on ");
                s.append(ty.debug_name());
                s.append(")");
            },
            Detail::QuadXorMask { mask } => {
                s.append("packed byte-quad xor mask ");
                push_padded_hex(&mut s, (*mask) as u128, 8);
                s.append(" changes more than an FP8 sign bit");
            },
            Detail::FieldOutOfRange { field, value } => {
                s.append("tensormap .");
                s.append(*field);
                s.append(" value ");
                push_int(&mut s, (*value) as i128);
                s.append(" out of range");
            },
            Detail::TensorRank { rank, coords } => {
                s.append("cp.async.bulk.tensor: tensor-map rank ");
                push_dec(&mut s, (*rank) as u128);
                s.append(" does not match ");
                push_dec(&mut s, (*coords) as u128);
                s.append(" tensorCoords operand(s)");
            },
            Detail::TensorSwizzle { swizzle, atomicity } => {
                s.append("cp.async.bulk.tensor: swizzle mode ");
                s.append(swizzle.debug_name());
                s.append(" / atomicity ");
                s.append(atomicity.debug_name());
                s.append(" combination not modeled");
            },
            Detail::TensorCells { elements, bytes } => {
                s.append("cp.async.bulk.tensor: box_dim[0] (");
                push_dec(&mut s, (*elements) as u128);
                s.append(" elements, ");
                push_dec(&mut s, (*bytes) as u128);
                s.append(" bytes) is not a whole number of 16-byte swizzle cells");
            },
            Detail::TensorAtom { cells, mode, atom } => {
                s.append("cp.async.bulk.tensor: box_dim[0] spans ");
                push_dec(&mut s, (*cells) as u128);
                s.append(" swizzle cells, more than one ");
                s.append(mode.debug_name());
                s.append(" atom (");
                push_dec(&mut s, (*atom) as u128);
                s.append(" cells) - crossing a leading-dimension atom boundary is not modeled");
            },
            Detail::TensorMode { mode } => {
                s.append("cp.async.bulk.tensor: swizzle mode ");
                s.append(mode.debug_name());
                s.append(" not modeled");
            },
            Detail::TensorAlignment { addr, mode, atom } => {
                s.append("cp.async.bulk.tensor: destination ");
                push_hex(&mut s, (*addr) as u128);
                s.append(" is not aligned to the ");
                s.append(mode.debug_name());
                s.append(" swizzle pattern's ");
                push_dec(&mut s, (*atom) as u128);
                s.append("-byte boundary (nonzero swizzle base offset not modeled)");
            },
            Detail::Negative { what, value } => {
                s.append(*what);
                s.append(" is negative (");
                push_int(&mut s, (*value) as i128);
                s.append(")");
            },
            Detail::SpecialRegister { kind } => {
                s.append("special register ");
                s.append((*kind).as_str());
            },
            Detail::SpaceAccess { space } => {
                s.append(space.debug_name());
                s.append("-space memory access");
            },
            Detail::ByZero { what, thread } => {
                s.append(*what);
                s.append(" by zero (thread ");
                push_thread(&mut s, *thread);
                s.append(")");
            },
            Detail::OnPredicates { op } => {
                s.append((*op).as_str());
                s.append(" on predicates");
            },
            Detail::Transcendental { op } => {
                s.append("transcendental ");
                s.append((*op).as_str());
            },
            Detail::PairStore { bits, thread } => {
                s.append("packed pair stored at sub-register width (");
                push_dec(&mut s, (*bits) as u128);
                s.append("-bit store, thread ");
                push_thread(&mut s, *thread);
                s.append(")");
            },
            Detail::NarrowStore { bits, reg_bits, thread } => {
                s.append("symbolic value stored at sub-register width (");
                push_dec(&mut s, (*bits) as u128);
                s.append("-bit store of a ");
                push_dec(&mut s, (*reg_bits) as u128);
                s.append("-bit register, thread ");
                push_thread(&mut s, *thread);
                s.append(")");
            },
            Detail::NarrowLoad { bits, reg_bits, thread } => {
                s.append("symbolic value loaded at sub-register width (");
                push_dec(&mut s, (*bits) as u128);
                s.append("-bit load into a ");
                push_dec(&mut s, (*reg_bits) as u128);
                s.append("-bit register, thread ");
                push_thread(&mut s, *thread);
                s.append(")");
            },
            Detail::NanByte { what, byte } => {
                s.append(*what);
                s.append(": source byte ");
                push_hex(&mut s, (*byte) as u128);
                s.append(" encodes NaN, which Volta's real-valued model cannot represent");
            },
            Detail::FloatToInt { src, dst } => {
                s.append("cvt float->int (");
                s.append(src.debug_name());
                s.append(" -> ");
                s.append(dst.debug_name());
                s.append(")");
            },
            Detail::FragmentHole { row, col } => {
                s.append("incomplete fragment mapping at (");
                push_dec(&mut s, (*row) as u128);
                s.append(", ");
                push_dec(&mut s, (*col) as u128);
                s.append(")");
            },
            Detail::LdmatrixRegisters { num, found } => {
                s.append("ldmatrix x");
                push_dec(&mut s, (*num) as u128);
                s.append(" with ");
                push_dec(&mut s, (*found) as u128);
                s.append(" destination registers");
            },
            Detail::UnsupportedShape { what, shape } => {
                s.append(*what);
                s.append(" shape ");
                push_shape(&mut s, *shape);
            },
            Detail::WarpDispatch { kind } => {
                s.append("warp-op dispatch for ");
                s.append(*kind);
            },
            Detail::WmmaFootprint { base, stride } => {
                s.append("wmma footprint from base ");
                push_hex(&mut s, (*base) as u128);
                s.append(" with stride ");
                push_dec(&mut s, (*stride) as u128);
                s.append(" overflows the address space");
            },
            Detail::WmmaElement { ty } => {
                s.append("wmma.load a/b with element type ");
                s.append(ty.debug_name());
            },
        }
        s
    }
}

/// How threads of a warp-cooperative operation disagree.
#[allow(inconsistent_fields)]
#[derive(Debug, Clone, Copy, PartialEq, Eq)]
pub enum WarpFault {
    /// A fixed reason.
    Text { text: &'static str },
    /// A mask naming a lane that the block does not have.
    LaneBeyondBlock { mask: u32, lane: u32, n_threads: u32 },
    /// A warpgroup that runs past the block.
    GroupBeyondBlock { start: u32, end: u64, n_threads: u32 },
    /// An executing lane outside its own mask.
    LaneNotInMask { lane: u32, mask: u32 },
    /// A tensor-core operation on a warp with exited lanes.
    ExitedLanes { what: &'static str, live: u64 },
    /// A shuffle from a lane outside the mask.
    SourceOutsideMask { lane: i64, source: i64, mask: u32 },
    /// An operand that must be uniform but is not.
    Differs { what: &'static str, first: i64, other: i64 },
}

impl WarpFault {
    pub open spec fn spec_text(&self) -> Seq<char> {
        match self {
            WarpFault::Text { text } => (*text)@,
            WarpFault::LaneBeyondBlock { mask, lane, n_threads } => "mask "@
                + padded_hex_text(*mask as nat, 8)
                + " includes lane "@
                + dec_text(*lane as nat)
                + " but the CTA has only "@
                + dec_text(*n_threads as nat)
                + " threads"@,
            WarpFault::GroupBeyondBlock { start, end, n_threads } => "wgmma.mma_async warpgroup ["@
                + dec_text(*start as nat)
                + ", "@
                + dec_text(*end as nat)
                + ") exceeds the CTA's "@
                + dec_text(*n_threads as nat)
                + " threads"@,
            WarpFault::LaneNotInMask { lane, mask } => "executing lane "@
                + dec_text(*lane as nat)
                + " is not in mask "@
                + padded_hex_text(*mask as nat, 8),
            WarpFault::ExitedLanes { what, live } => (*what)@
                + " requires all 32 warp lanes live, but only "@
                + dec_text(*live as nat)
                + " are (the PTX ISA defines the instruction as undefined if any thread in the warp has exited)"@,
            WarpFault::SourceOutsideMask { lane, source, mask } => "lane "@
                + int_text(*lane as int)
                + " reads lane "@
                + int_text(*source as int)
                + " which is outside mask "@
                + padded_hex_text(*mask as nat, 8),
            WarpFault::Differs { what, first, other } => (*what)@
                + " differs across lanes ("@
                + int_text(*first as int)
                + " vs "@
                + int_text(*other as int)
                + ")"@,
        }
    }

    /// The text shown to a user.
    pub fn text(&self) -> (r: String)
        ensures
            r@ == self.spec_text(),
    {
        let mut s = String::from_str("");
        proof {
            lemma_no_text();
        }
        match self {
            WarpFault::Text { text } => {
                s.append(*text);
            },
            WarpFault::LaneBeyondBlock { mask, lane, n_threads } => {
                s.append("mask ");
                push_padded_hex(&mut s, (*mask) as u128, 8);
                s.append(" includes lane ");
                push_dec(&mut s, (*lane) as u128);
                s.append(" but the CTA has only ");
                push_dec(&mut s, (*n_threads) as u128);
                s.append(" threads");
            },
            WarpFault::GroupBeyondBlock { start, end, n_threads } => {
                s.append("wgmma.mma_async warpgroup [");
                push_dec(&mut s, (*start) as u128);
                s.append(", ");
                push_dec(&mut s, (*end) as u128);
                s.append(") exceeds the CTA's ");
                push_dec(&mut s, (*n_threads) as u128);
                s.append(" threads");
            },
            WarpFault::LaneNotInMask { lane, mask } => {
                s.append("executing lane ");
                push_dec(&mut s, (*lane) as u128);
                s.append(" is not in mask ");
                push_padded_hex(&mut s, (*mask) as u128, 8);
            },
            WarpFault::ExitedLanes { what, live } => {
                s.append(*what);
                s.append(" requires all 32 warp lanes live, but only ");
                push_dec(&mut s, (*live) as u128);
                s.append(
                    " are (the PTX ISA defines the instruction as undefined if any thread in the warp has exited)",
                );
            },
            WarpFault::SourceOutsideMask { lane, source, mask } => {
                s.append("lane ");
                push_int(&mut s, (*lane) as i128);
                s.append(" reads lane ");
                push_int(&mut s, (*source) as i128);
                s.append(" which is outside mask ");
                push_padded_hex(&mut s, (*mask) as u128, 8);
            },
            WarpFault::Differs { what, first, other } => {
                s.append(*what);
                s.append(" differs across lanes (");
                push_int(&mut s, (*first) as i128);
                s.append(" vs ");
                push_int(&mut s, (*other) as i128);
                s.append(")");
            },
        }
        s
    }
}

/// Errors detected by the symbolic evaluator.
///
/// `DataRace` and `Deadlock` are findings about the kernel; the others are
/// violations of the structured form or limits of the model.
#[allow(inconsistent_fields)]
#[derive(Debug)]
pub enum EvalError {
    /// Two unsynchronized conflicting accesses to the same address.
    DataRace { space: MemSpace, addr: u64, prior: AccessSite, current: AccessSite },
    /// An access conflicted with a still-in-flight `cp.async` copy: its
    /// destination was touched, or its source modified, before completion.
    AsyncCopyHazard { space: MemSpace, addr: u64, prior: AccessSite, current: AccessSite },
    /// An access observed bytes that an async-proxy write completed, without a
    /// matching `fence.proxy.async` of the accessing thread since.
    AsyncProxyFenceHazard { space: MemSpace, addr: u64, prior: AccessSite, current: AccessSite },
    /// An async-proxy read observed bytes of a generic write that its writer
    /// did not fence.
    GenericProxyFenceHazard { space: MemSpace, addr: u64, prior: AccessSite, current: AccessSite },
    /// A `wgmma.mma_async` accessed an accumulator register without an
    /// intervening `wgmma.fence`.
    WgmmaFenceHazard {
        thread: ThreadId,
        pc: InstrId,
        reg: RegId,
        shape: MmaShape,
        prior_write: Option<AccessSite>,
    },
    /// An access reached an accumulator register before a `wgmma.wait_group`
    /// covered the writing group.
    WgmmaWaitGroupHazard { thread: ThreadId, pc: InstrId, reg: RegId, prior_write: AccessSite },
    /// All live threads are blocked and no barrier or warp group can fire:
    /// every blocked thread with the instruction it is blocked at.
    Deadlock { blocked: Vec<(ThreadId, InstrId)> },
    /// A register was read before ever being written.
    UninitializedRegister { thread: ThreadId, pc: InstrId, reg: RegId },
    /// Memory was read at an address that was never written.
    UninitializedMemory { thread: ThreadId, pc: InstrId, space: MemSpace, addr: u64 },
    /// An access fell outside every declared array or variable.
    OutOfBounds { thread: ThreadId, pc: InstrId, space: MemSpace, addr: u64, width: u64 },
    /// An access at an address that is no multiple of the required alignment.
    Misaligned { thread: ThreadId, pc: InstrId, space: MemSpace, addr: u64, required: u64 },
    /// A matrix stride below the leading dimension.
    WmmaStrideTooSmall { pc: InstrId, stride: i64, minimum: u64 },
    /// An access reinterpreted bytes at an incompatible width.
    Reinterpretation {
        thread: ThreadId,
        pc: InstrId,
        space: MemSpace,
        addr: u64,
        width: u64,
        found: Option<(u64, u64, GranuleKind)>,
    },
    /// A value that must be concrete was symbolic.
    NotConcrete { thread: ThreadId, pc: InstrId, what: &'static str },
    /// A scalar was required but a packed value was found, or vice versa.
    ValueKindMismatch { thread: ThreadId, pc: InstrId, what: &'static str },
    /// An ordinary write clobbered a live `mbarrier` object.
    MbarrierOverwrite { thread: ThreadId, pc: InstrId, space: MemSpace, addr: u64 },
    /// An `mbarrier` operation found no live object at its address.
    NoLiveMbarrier { thread: ThreadId, pc: InstrId, space: MemSpace, addr: u64 },
    /// An output element is an uninitialized read.
    UndefinedOutput { array: String, index: u64 },
    /// A `trap` instruction was reached.
    TrapReached { thread: ThreadId, pc: InstrId },
    /// Threads of one warp-cooperative operation disagree.
    WarpMismatch { pc: InstrId, reason: WarpFault },
    /// The instruction, or one of its modes, is not modeled.
    Unsupported { pc: InstrId, what: Detail },
    /// The instruction budget was exhausted.
    InstructionLimit { limit: u64 },
    /// A problem of the configuration.
    Config { message: String },
    /// A column count that is no power of two from 32 to 512.
    Tcgen05InvalidColumnCount { thread: ThreadId, pc: InstrId, num_cols: u32 },
    /// More Tensor Memory columns were requested than remain.
    Tcgen05OutOfSpace { thread: ThreadId, pc: InstrId, requested: u32, available: u32 },
    /// An allocation after the permit was given up.
    Tcgen05AllocAfterRelinquish { thread: ThreadId, pc: InstrId },
    /// A deallocation that matches no live allocation.
    Tcgen05DeallocMismatch { thread: ThreadId, pc: InstrId, taddr: u32, num_cols: u32 },
    /// A Tensor Memory access outside every live allocation.
    Tcgen05NotAllocated { thread: ThreadId, pc: InstrId, lane: u32, col: u32 },
    /// A Tensor Memory access overlaps a pending one.
    Tcgen05AsyncHazard {
        quadrant: u32,
        start_col: u32,
        num_cols: u32,
        prior: AccessSite,
        current: AccessSite,
    },
    /// A Tensor Memory address in another warp's lane quadrant.
    Tcgen05LaneRestrictionViolation {
        thread: ThreadId,
        pc: InstrId,
        lane_base: u32,
        expected_quadrant_base: u32,
    },
    /// A tensor-map object that was never written.
    TensorMapNotFound { thread: ThreadId, pc: InstrId, space: MemSpace, addr: u64 },
    /// A tensor-map object lacks a field that the copy needs.
    TensorMapFieldMissing { thread: ThreadId, pc: InstrId, field: &'static str },
}

impl EvalError {
    pub open spec fn spec_text(&self) -> Seq<char> {
        match self {
            EvalError::DataRace { space, addr, prior, current } => "data race on "@
                + space.debug_name()@
                + "["@
                + hex_text(*addr as nat)
                + "]: "@
                + site_text(*current)
                + " conflicts with "@
                + site_text(*prior),
            EvalError::AsyncCopyHazard { space, addr, prior, current } => "cp.async hazard on "@
                + space.debug_name()@
                + "["@
                + hex_text(*addr as nat)
                + "]: "@
                + site_text(*current)
                + " conflicts with in-flight "@
                + site_text(*prior),
            EvalError::AsyncProxyFenceHazard {
                space,
                addr,
                prior,
                current,
            } => "missing fence.proxy.async on "@
                + space.debug_name()@
                + "["@
                + hex_text(*addr as nat)
                + "]: "@
                + site_text(*current)
                + " observed the async-proxy write "@
                + site_text(*prior)
                + " without an intervening fence.proxy.async (sm_90+ requires this fence to order cp.async/TMA writes against later accesses through either proxy; bar.sync alone does not provide it)"@,
            EvalError::GenericProxyFenceHazard {
                space,
                addr,
                prior,
                current,
            } => "missing fence.proxy.async on "@
                + space.debug_name()@
                + "["@
                + hex_text(*addr as nat)
                + "]: "@
                + site_text(*current)
                + " observed the generic-proxy write "@
                + site_text(*prior)
                + " without an intervening fence.proxy.async by its writer"@,
            EvalError::WgmmaFenceHazard {
                thread,
                pc,
                reg,
                shape,
                prior_write,
            } => match prior_write {
                Some(prior) => "missing wgmma.fence on "@ + reg_text(*reg) + ": "@ + thread_text(
                    *thread,
                ) + " at "@ + pc_text(*pc) + " accesses "@ + reg_text(*reg)
                    + " as a wgmma.mma_async ."@ + shape_text(*shape)
                    + " accumulator, but it was last written by "@ + site_text(*prior)
                    + " with no intervening wgmma.fence (PTX ISA 9.7.17.7.1 requires a fence between a register access and any wgmma.mma_async that accesses the same register, except when both accesses are accumulator accesses of the same shape)"@,
                None => "missing wgmma.fence on "@ + reg_text(*reg) + ": "@ + thread_text(*thread)
                    + " at "@ + pc_text(*pc)
                    + " is this warpgroup's first wgmma.mma_async access to "@ + reg_text(*reg)
                    + " (."@ + shape_text(*shape)
                    + "), but no wgmma.fence has been executed yet (PTX ISA 9.7.17.7.1 requires a wgmma.fence before the first wgmma.mma_async operation in a warpgroup)"@,
            },
            EvalError::WgmmaWaitGroupHazard {
                thread,
                pc,
                reg,
                prior_write,
            } => "missing wgmma.wait_group on "@
                + reg_text(*reg)
                + ": "@
                + thread_text(*thread)
                + " at "@
                + pc_text(*pc)
                + " accesses "@
                + reg_text(*reg)
                + ", which "@
                + site_text(*prior_write)
                + " wrote as a wgmma.mma_async accumulator not yet released by a covering wgmma.wait_group (PTX ISA 9.7.17.7.3 makes this undefined behavior unless the access is that same wgmma.mma_async chain's own next same-shape accumulator seed-read or writeback)"@,
            EvalError::Deadlock { blocked } => "deadlock: "@ + dec_text(blocked@.len())
                + " thread(s) blocked"@,
            EvalError::UninitializedRegister { thread, pc, reg } => thread_text(*thread)
                + ": read of uninitialized register "@
                + reg_text(*reg)
                + " at "@
                + pc_text(*pc),
            EvalError::UninitializedMemory { thread, pc, space, addr } => thread_text(*thread)
                + ": read of uninitialized "@
                + space.debug_name()@
                + " memory at "@
                + hex_text(*addr as nat)
                + " ("@
                + pc_text(*pc)
                + ")"@,
            EvalError::OutOfBounds { thread, pc, space, addr, width } => thread_text(*thread)
                + ": out-of-bounds "@
                + space.debug_name()@
                + " access at "@
                + hex_text(*addr as nat)
                + " (width "@
                + dec_text(*width as nat)
                + ") at "@
                + pc_text(*pc),
            EvalError::Misaligned { thread, pc, space, addr, required } => thread_text(*thread)
                + ": misaligned "@
                + space.debug_name()@
                + " access at "@
                + hex_text(*addr as nat)
                + " (must be "@
                + dec_text(*required as nat)
                + "-byte aligned) at "@
                + pc_text(*pc)
                + "; PTX requires natural alignment, so hardware behavior is undefined"@,
            EvalError::WmmaStrideTooSmall { pc, stride, minimum } => "wmma stride "@
                + int_text(*stride as int)
                + " is below the matrix leading dimension "@
                + dec_text(*minimum as nat)
                + " at "@
                + pc_text(*pc)
                + "; PTX defines strides below the default as undefined behavior"@,
            EvalError::Reinterpretation { thread, pc, space, addr, width, found } => {
                let head = thread_text(*thread) + ": unsupported reinterpretation of "@
                    + space.debug_name()@ + " memory at "@ + hex_text(*addr as nat) + " (width "@
                    + dec_text(*width as nat) + ") at "@ + pc_text(*pc);
                match found {
                    Some(g) => head + "; the bytes belong to a "@ + dec_text(g.1 as nat)
                        + "-byte "@ + g.2.name()@ + " granule written at "@ + hex_text(
                        g.0 as nat,
                    ),
                    None => head,
                }
            },
            EvalError::NotConcrete { thread, pc, what } => thread_text(*thread)
                + ": "@
                + (*what)@
                + " is symbolic at "@
                + pc_text(*pc)
                + "; the kernel is not a structured-CTA under this configuration"@,
            EvalError::ValueKindMismatch { thread, pc, what } => thread_text(*thread)
                + ": value kind mismatch ("@
                + (*what)@
                + ") at "@
                + pc_text(*pc),
            EvalError::MbarrierOverwrite { thread, pc, space, addr } => thread_text(*thread)
                + ": ordinary write to "@
                + space.debug_name()@
                + " memory at "@
                + hex_text(*addr as nat)
                + " overwrote a live mbarrier object at "@
                + pc_text(*pc)
                + "; mbarrier.inval must run first"@,
            EvalError::NoLiveMbarrier { thread, pc, space, addr } => thread_text(*thread)
                + ": no live mbarrier object at "@
                + space.debug_name()@
                + "["@
                + hex_text(*addr as nat)
                + "] at "@
                + pc_text(*pc)
                + " (never initialized, already invalidated, or holding ordinary data)"@,
            EvalError::UndefinedOutput { array, index } => "output element "@
                + array@
                + "["@
                + dec_text(*index as nat)
                + "] is undefined (uninitialized read)"@,
            EvalError::TrapReached { thread, pc } => thread_text(*thread)
                + ": trap reached at "@
                + pc_text(*pc),
            EvalError::WarpMismatch { pc, reason } => "warp-op mismatch at "@
                + pc_text(*pc)
                + ": "@
                + reason.spec_text(),
            EvalError::Unsupported { pc, what } => "unsupported at "@
                + pc_text(*pc)
                + ": "@
                + what.spec_text(),
            EvalError::InstructionLimit { limit } => "instruction limit exceeded ("@
                + dec_text(*limit as nat)
                + " instructions)"@,
            EvalError::Config { message } => "configuration error: "@
                + message@,
            EvalError::Tcgen05InvalidColumnCount { thread, pc, num_cols } => thread_text(*thread)
                + ": tcgen05.alloc nCols="@
                + dec_text(*num_cols as nat)
                + " at "@
                + pc_text(*pc)
                + " must be a power of 2 in [32, 512]"@,
            EvalError::Tcgen05OutOfSpace {
                thread,
                pc,
                requested,
                available,
            } => thread_text(*thread)
                + ": tcgen05.alloc requested "@
                + dec_text(*requested as nat)
                + " tensor-memory column(s) at "@
                + pc_text(*pc)
                + " but only "@
                + dec_text(*available as nat)
                + " remain unallocated"@,
            EvalError::Tcgen05AllocAfterRelinquish { thread, pc } => thread_text(*thread)
                + ": tcgen05.alloc at "@
                + pc_text(*pc)
                + " after this CTA relinquished its allocation permit"@,
            EvalError::Tcgen05DeallocMismatch {
                thread,
                pc,
                taddr,
                num_cols,
            } => thread_text(*thread)
                + ": tcgen05.dealloc at "@
                + pc_text(*pc)
                + " of (taddr="@
                + hex_text(*taddr as nat)
                + ", nCols="@
                + dec_text(*num_cols as nat)
                + ") does not match any live allocation"@,
            EvalError::Tcgen05NotAllocated { thread, pc, lane, col } => thread_text(*thread)
                + ": tcgen05.ld/.st at "@
                + pc_text(*pc)
                + " touched tensor-memory (lane="@
                + dec_text(*lane as nat)
                + ", col="@
                + dec_text(*col as nat)
                + ") outside any live allocation"@,
            EvalError::Tcgen05AsyncHazard { quadrant, start_col, num_cols, prior, current } => {
                "tcgen05 async hazard on tensor-memory quadrant "@ + dec_text(*quadrant as nat)
                    + " cols ["@ + dec_text(*start_col as nat) + ", "@ + dec_text(
                    (*start_col + *num_cols) as nat,
                ) + "): "@ + site_text(*current) + " conflicts with in-flight "@ + site_text(*prior)
            },
            EvalError::Tcgen05LaneRestrictionViolation {
                thread,
                pc,
                lane_base,
                expected_quadrant_base,
            } => thread_text(*thread)
                + ": tcgen05.ld/.st at "@
                + pc_text(*pc)
                + " addresses tensor-memory lane quadrant "@
                + dec_text(*lane_base as nat)
                + " - the issuing warp may only access its own quadrant, starting at lane "@
                + dec_text(*expected_quadrant_base as nat),
            EvalError::TensorMapNotFound { thread, pc, space, addr } => thread_text(*thread)
                + ": "@
                + pc_text(*pc)
                + " references a tensor-map object at "@
                + space.debug_name()@
                + "["@
                + hex_text(*addr as nat)
                + "] that was never written by tensormap.replace"@,
            EvalError::TensorMapFieldMissing { thread, pc, field } => thread_text(*thread)
                + ": "@
                + pc_text(*pc)
                + " uses a tensor-map object missing its `."@
                + (*field)@
                + "` field"@,
        }
    }

    /// The text shown to a user.
    pub fn text(&self) -> (r: String)
        ensures
            r@ == self.spec_text(),
    {
        let mut s = String::from_str("");
        proof {
            lemma_no_text();
        }
        match self {
            EvalError::DataRace { space, addr, prior, current } => {
                s.append("data race on ");
                s.append(space.debug_name());
                s.append("[");
                push_hex(&mut s, (*addr) as u128);
                s.append("]: ");
                push_site(&mut s, *current);
                s.append(" conflicts with ");
                push_site(&mut s, *prior);
            },
            EvalError::AsyncCopyHazard { space, addr, prior, current } => {
                s.append("cp.async hazard on ");
                s.append(space.debug_name());
                s.append("[");
                push_hex(&mut s, (*addr) as u128);
                s.append("]: ");
                push_site(&mut s, *current);
                s.append(" conflicts with in-flight ");
                push_site(&mut s, *prior);
            },
            EvalError::AsyncProxyFenceHazard { space, addr, prior, current } => {
                s.append("missing fence.proxy.async on ");
                s.append(space.debug_name());
                s.append("[");
                push_hex(&mut s, (*addr) as u128);
                s.append("]: ");
                push_site(&mut s, *current);
                s.append(" observed the async-proxy write ");
                push_site(&mut s, *prior);
                s.append(
                    " without an intervening fence.proxy.async (sm_90+ requires this fence to order cp.async/TMA writes against later accesses through either proxy; bar.sync alone does not provide it)",
                );
            },
            EvalError::GenericProxyFenceHazard { space, addr, prior, current } => {
                s.append("missing fence.proxy.async on ");
                s.append(space.debug_name());
                s.append("[");
                push_hex(&mut s, (*addr) as u128);
                s.append("]: ");
                push_site(&mut s, *current);
                s.append(" observed the generic-proxy write ");
                push_site(&mut s, *prior);
                s.append(" without an intervening fence.proxy.async by its writer");
            },
            EvalError::WgmmaFenceHazard { thread, pc, reg, shape, prior_write } => {
                s.append("missing wgmma.fence on ");
                push_reg(&mut s, *reg);
                s.append(": ");
                push_thread(&mut s, *thread);
                s.append(" at ");
                push_pc(&mut s, *pc);
                match prior_write {
                    Some(prior) => {
                        s.append(" accesses ");
                        push_reg(&mut s, *reg);
                        s.append(" as a wgmma.mma_async .");
                        push_shape(&mut s, *shape);
                        s.append(" accumulator, but it was last written by ");
                        push_site(&mut s, *prior);
                        s.append(
                            " with no intervening wgmma.fence (PTX ISA 9.7.17.7.1 requires a fence between a register access and any wgmma.mma_async that accesses the same register, except when both accesses are accumulator accesses of the same shape)",
                        );
                    },
                    None => {
                        s.append(" is this warpgroup's first wgmma.mma_async access to ");
                        push_reg(&mut s, *reg);
                        s.append(" (.");
                        push_shape(&mut s, *shape);
                        s.append(
                            "), but no wgmma.fence has been executed yet (PTX ISA 9.7.17.7.1 requires a wgmma.fence before the first wgmma.mma_async operation in a warpgroup)",
                        );
                    },
                }
            },
            EvalError::WgmmaWaitGroupHazard { thread, pc, reg, prior_write } => {
                s.append("missing wgmma.wait_group on ");
                push_reg(&mut s, *reg);
                s.append(": ");
                push_thread(&mut s, *thread);
                s.append(" at ");
                push_pc(&mut s, *pc);
                s.append(" accesses ");
                push_reg(&mut s, *reg);
                s.append(", which ");
                push_site(&mut s, *prior_write);
                s.append(
                    " wrote as a wgmma.mma_async accumulator not yet released by a covering wgmma.wait_group (PTX ISA 9.7.17.7.3 makes this undefined behavior unless the access is that same wgmma.mma_async chain's own next same-shape accumulator seed-read or writeback)",
                );
            },
            EvalError::Deadlock { blocked } => {
                s.append("deadlock: ");
                push_dec(&mut s, blocked.len() as u128);
                s.append(" thread(s) blocked");
            },
            EvalError::UninitializedRegister { thread, pc, reg } => {
                push_thread(&mut s, *thread);
                s.append(": read of uninitialized register ");
                push_reg(&mut s, *reg);
                s.append(" at ");
                push_pc(&mut s, *pc);
            },
            EvalError::UninitializedMemory { thread, pc, space, addr } => {
                push_thread(&mut s, *thread);
                s.append(": read of uninitialized ");
                s.append(space.debug_name());
                s.append(" memory at ");
                push_hex(&mut s, (*addr) as u128);
                s.append(" (");
                push_pc(&mut s, *pc);
                s.append(")");
            },
            EvalError::OutOfBounds { thread, pc, space, addr, width } => {
                push_thread(&mut s, *thread);
                s.append(": out-of-bounds ");
                s.append(space.debug_name());
                s.append(" access at ");
                push_hex(&mut s, (*addr) as u128);
                s.append(" (width ");
                push_dec(&mut s, (*width) as u128);
                s.append(") at ");
                push_pc(&mut s, *pc);
            },
            EvalError::Misaligned { thread, pc, space, addr, required } => {
                push_thread(&mut s, *thread);
                s.append(": misaligned ");
                s.append(space.debug_name());
                s.append(" access at ");
                push_hex(&mut s, (*addr) as u128);
                s.append(" (must be ");
                push_dec(&mut s, (*required) as u128);
                s.append("-byte aligned) at ");
                push_pc(&mut s, *pc);
                s.append("; PTX requires natural alignment, so hardware behavior is undefined");
            },
            EvalError::WmmaStrideTooSmall { pc, stride, minimum } => {
                s.append("wmma stride ");
                push_int(&mut s, (*stride) as i128);
                s.append(" is below the matrix leading dimension ");
                push_dec(&mut s, (*minimum) as u128);
                s.append(" at ");
                push_pc(&mut s, *pc);
                s.append("; PTX defines strides below the default as undefined behavior");
            },
            EvalError::Reinterpretation { thread, pc, space, addr, width, found } => {
                push_thread(&mut s, *thread);
                s.append(": unsupported reinterpretation of ");
                s.append(space.debug_name());
                s.append(" memory at ");
                push_hex(&mut s, *addr as u128);
                s.append(" (width ");
                push_dec(&mut s, *width as u128);
                s.append(") at ");
                push_pc(&mut s, *pc);
                match found {
                    Some(g) => {
                        s.append("; the bytes belong to a ");
                        push_dec(&mut s, g.1 as u128);
                        s.append("-byte ");
                        s.append(g.2.name());
                        s.append(" granule written at ");
                        push_hex(&mut s, g.0 as u128);
                    },
                    None => {},
                }
            },
            EvalError::NotConcrete { thread, pc, what } => {
                push_thread(&mut s, *thread);
                s.append(": ");
                s.append(*what);
                s.append(" is symbolic at ");
                push_pc(&mut s, *pc);
                s.append("; the kernel is not a structured-CTA under this configuration");
            },
            EvalError::ValueKindMismatch { thread, pc, what } => {
                push_thread(&mut s, *thread);
                s.append(": value kind mismatch (");
                s.append(*what);
                s.append(") at ");
                push_pc(&mut s, *pc);
            },
            EvalError::MbarrierOverwrite { thread, pc, space, addr } => {
                push_thread(&mut s, *thread);
                s.append(": ordinary write to ");
                s.append(space.debug_name());
                s.append(" memory at ");
                push_hex(&mut s, (*addr) as u128);
                s.append(" overwrote a live mbarrier object at ");
                push_pc(&mut s, *pc);
                s.append("; mbarrier.inval must run first");
            },
            EvalError::NoLiveMbarrier { thread, pc, space, addr } => {
                push_thread(&mut s, *thread);
                s.append(": no live mbarrier object at ");
                s.append(space.debug_name());
                s.append("[");
                push_hex(&mut s, (*addr) as u128);
                s.append("] at ");
                push_pc(&mut s, *pc);
                s.append(" (never initialized, already invalidated, or holding ordinary data)");
            },
            EvalError::UndefinedOutput { array, index } => {
                s.append("output element ");
                push_text(&mut s, array);
                s.append("[");
                push_dec(&mut s, (*index) as u128);
                s.append("] is undefined (uninitialized read)");
            },
            EvalError::TrapReached { thread, pc } => {
                push_thread(&mut s, *thread);
                s.append(": trap reached at ");
                push_pc(&mut s, *pc);
            },
            EvalError::WarpMismatch { pc, reason } => {
                s.append("warp-op mismatch at ");
                push_pc(&mut s, *pc);
                s.append(": ");
                push_text(&mut s, &reason.text());
            },
            EvalError::Unsupported { pc, what } => {
                s.append("unsupported at ");
                push_pc(&mut s, *pc);
                s.append(": ");
                push_text(&mut s, &what.text());
            },
            EvalError::InstructionLimit { limit } => {
                s.append("instruction limit exceeded (");
                push_dec(&mut s, (*limit) as u128);
                s.append(" instructions)");
            },
            EvalError::Config { message } => {
                s.append("configuration error: ");
                push_text(&mut s, message);
            },
            EvalError::Tcgen05InvalidColumnCount { thread, pc, num_cols } => {
                push_thread(&mut s, *thread);
                s.append(": tcgen05.alloc nCols=");
                push_dec(&mut s, (*num_cols) as u128);
                s.append(" at ");
                push_pc(&mut s, *pc);
                s.append(" must be a power of 2 in [32, 512]");
            },
            EvalError::Tcgen05OutOfSpace { thread, pc, requested, available } => {
                push_thread(&mut s, *thread);
                s.append(": tcgen05.alloc requested ");
                push_dec(&mut s, (*requested) as u128);
                s.append(" tensor-memory column(s) at ");
                push_pc(&mut s, *pc);
                s.append(" but only ");
                push_dec(&mut s, (*available) as u128);
                s.append(" remain unallocated");
            },
            EvalError::Tcgen05AllocAfterRelinquish { thread, pc } => {
                push_thread(&mut s, *thread);
                s.append(": tcgen05.alloc at ");
                push_pc(&mut s, *pc);
                s.append(" after this CTA relinquished its allocation permit");
            },
            EvalError::Tcgen05DeallocMismatch { thread, pc, taddr, num_cols } => {
                push_thread(&mut s, *thread);
                s.append(": tcgen05.dealloc at ");
                push_pc(&mut s, *pc);
                s.append(" of (taddr=");
                push_hex(&mut s, (*taddr) as u128);
                s.append(", nCols=");
                push_dec(&mut s, (*num_cols) as u128);
                s.append(") does not match any live allocation");
            },
            EvalError::Tcgen05NotAllocated { thread, pc, lane, col } => {
                push_thread(&mut s, *thread);
                s.append(": tcgen05.ld/.st at ");
                push_pc(&mut s, *pc);
                s.append(" touched tensor-memory (lane=");
                push_dec(&mut s, (*lane) as u128);
                s.append(", col=");
                push_dec(&mut s, (*col) as u128);
                s.append(") outside any live allocation");
            },
            EvalError::Tcgen05AsyncHazard { quadrant, start_col, num_cols, prior, current } => {
                s.append("tcgen05 async hazard on tensor-memory quadrant ");
                push_dec(&mut s, *quadrant as u128);
                s.append(" cols [");
                push_dec(&mut s, *start_col as u128);
                s.append(", ");
                push_dec(&mut s, *start_col as u128 + *num_cols as u128);
                s.append("): ");
                push_site(&mut s, *current);
                s.append(" conflicts with in-flight ");
                push_site(&mut s, *prior);
            },
            EvalError::Tcgen05LaneRestrictionViolation {
                thread,
                pc,
                lane_base,
                expected_quadrant_base,
            } => {
                push_thread(&mut s, *thread);
                s.append(": tcgen05.ld/.st at ");
                push_pc(&mut s, *pc);
                s.append(" addresses tensor-memory lane quadrant ");
                push_dec(&mut s, (*lane_base) as u128);
                s.append(" - the issuing warp may only access its own quadrant, starting at lane ");
                push_dec(&mut s, (*expected_quadrant_base) as u128);
            },
            EvalError::TensorMapNotFound { thread, pc, space, addr } => {
                push_thread(&mut s, *thread);
                s.append(": ");
                push_pc(&mut s, *pc);
                s.append(" references a tensor-map object at ");
                s.append(space.debug_name());
                s.append("[");
                push_hex(&mut s, (*addr) as u128);
                s.append("] that was never written by tensormap.replace");
            },
            EvalError::TensorMapFieldMissing { thread, pc, field } => {
                push_thread(&mut s, *thread);
                s.append(": ");
                push_pc(&mut s, *pc);
                s.append(" uses a tensor-map object missing its `.");
                s.append(*field);
                s.append("` field");
            },
        }
        s
    }
}

pub type EvalResult<T> = Result<T, EvalError>;

} // verus!
