//! Named fields of tensor-map objects.

use vstd::prelude::*;

use crate::lowered::Operand;

verus! {

/// Element type of the described tensor.
#[derive(Debug, Clone, Copy, PartialEq, Eq, Structural)]
pub enum TensorElemType {
    U8,
    U16,
    U32,
    S32,
    U64,
    S64,
    F16,
    F32,
    F32Ftz,
    F64,
    Bf16,
    Tf32,
    Tf32Ftz,
}

impl TensorElemType {
    pub open spec fn spec_byte_width(self) -> u32 {
        match self {
            TensorElemType::U8 => 1,
            TensorElemType::U16 | TensorElemType::F16 | TensorElemType::Bf16 => 2,
            TensorElemType::U64 | TensorElemType::S64 | TensorElemType::F64 => 8,
            _ => 4,
        }
    }

    /// Width of one element, in bytes.
    #[verifier::when_used_as_spec(spec_byte_width)]
    pub fn byte_width(self) -> (r: u32)
        ensures
            r == self.spec_byte_width(),
            1 <= r <= 8,
    {
        match self {
            TensorElemType::U8 => 1,
            TensorElemType::U16 | TensorElemType::F16 | TensorElemType::Bf16 => 2,
            TensorElemType::U64 | TensorElemType::S64 | TensorElemType::F64 => 8,
            _ => 4,
        }
    }

    pub open spec fn spec_is_float(self) -> bool {
        match self {
            TensorElemType::F16 | TensorElemType::F32 | TensorElemType::F32Ftz => true,
            TensorElemType::F64 | TensorElemType::Bf16 => true,
            TensorElemType::Tf32 | TensorElemType::Tf32Ftz => true,
            _ => false,
        }
    }

    #[verifier::when_used_as_spec(spec_is_float)]
    pub fn is_float(self) -> (r: bool)
        ensures
            r == self.spec_is_float(),
    {
        match self {
            TensorElemType::F16 | TensorElemType::F32 | TensorElemType::F32Ftz => true,
            TensorElemType::F64 | TensorElemType::Bf16 => true,
            TensorElemType::Tf32 | TensorElemType::Tf32Ftz => true,
            _ => false,
        }
    }
}

/// What an out-of-bounds element of a tensor copy is filled with.
#[derive(Debug, Clone, Copy, PartialEq, Eq, Structural)]
pub enum TensorFillMode {
    Zero,
    OobNan,
}

/// Interleaved layout of the described tensor.
#[derive(Debug, Clone, Copy, PartialEq, Eq, Structural)]
pub enum TensorInterleaveLayout {
    NoInterleave,
    Interleave16B,
    Interleave32B,
}

/// Shared-memory swizzle of a tensor copy.
#[derive(Debug, Clone, Copy, PartialEq, Eq, Structural)]
pub enum TensorSwizzleMode {
    NoSwizzle,
    Swizzle32B,
    Swizzle64B,
    Swizzle128B,
    Swizzle96B,
}

/// Unit that a swizzle keeps together.
#[derive(Debug, Clone, Copy, PartialEq, Eq, Structural)]
pub enum TensorSwizzleAtomicity {
    Atomicity16B,
    Atomicity32B,
    Atomicity32BWith8BFlip,
    Atomicity64B,
}

/// One field write of `tensormap.replace`.
#[derive(Debug, Clone, Copy)]
pub enum TensormapFieldWrite {
    GlobalAddress(Operand),
    Rank(Operand),
    BoxDim { ord: u32, new_val: Operand },
    GlobalDim { ord: u32, new_val: Operand },
    GlobalStride { ord: u32, new_val: Operand },
    ElementStride { ord: u32, new_val: Operand },
    Elemtype(TensorElemType),
    InterleaveLayout(TensorInterleaveLayout),
    SwizzleMode(TensorSwizzleMode),
    SwizzleAtomicity(TensorSwizzleAtomicity),
    FillMode(TensorFillMode),
}

impl TensorSwizzleMode {
    pub open spec fn spec_debug_name(&self) -> &'static str {
        match self {
            TensorSwizzleMode::NoSwizzle => "None",
            TensorSwizzleMode::Swizzle32B => "Swizzle32B",
            TensorSwizzleMode::Swizzle64B => "Swizzle64B",
            TensorSwizzleMode::Swizzle128B => "Swizzle128B",
            TensorSwizzleMode::Swizzle96B => "Swizzle96B",
        }
    }

    /// The name of the variant.
    #[verifier::when_used_as_spec(spec_debug_name)]
    pub fn debug_name(&self) -> (r: &'static str)
        ensures
            r == self.spec_debug_name(),
    {
        match self {
            TensorSwizzleMode::NoSwizzle => "None",
            TensorSwizzleMode::Swizzle32B => "Swizzle32B",
            TensorSwizzleMode::Swizzle64B => "Swizzle64B",
            TensorSwizzleMode::Swizzle128B => "Swizzle128B",
            TensorSwizzleMode::Swizzle96B => "Swizzle96B",
        }
    }
}

impl TensorSwizzleAtomicity {
    pub open spec fn spec_debug_name(&self) -> &'static str {
        match self {
            TensorSwizzleAtomicity::Atomicity16B => "Atomicity16B",
            TensorSwizzleAtomicity::Atomicity32B => "Atomicity32B",
            TensorSwizzleAtomicity::Atomicity32BWith8BFlip => "Atomicity32BWith8BFlip",
            TensorSwizzleAtomicity::Atomicity64B => "Atomicity64B",
        }
    }

    /// The name of the variant.
    #[verifier::when_used_as_spec(spec_debug_name)]
    pub fn debug_name(&self) -> (r: &'static str)
        ensures
            r == self.spec_debug_name(),
    {
        match self {
            TensorSwizzleAtomicity::Atomicity16B => "Atomicity16B",
            TensorSwizzleAtomicity::Atomicity32B => "Atomicity32B",
            TensorSwizzleAtomicity::Atomicity32BWith8BFlip => "Atomicity32BWith8BFlip",
            TensorSwizzleAtomicity::Atomicity64B => "Atomicity64B",
        }
    }
}

} // verus!
