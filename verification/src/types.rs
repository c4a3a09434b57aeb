//! Scalar types and register classes.

use vstd::prelude::*;

verus! {

/// PTX scalar types.
#[derive(Debug, Clone, Copy, PartialEq, Eq, Structural)]
pub enum ScalarType {
    Pred,
    B8,
    B16,
    B32,
    B64,
    B128,
    U8,
    U16,
    U32,
    U64,
    S8,
    S16,
    S32,
    S64,
    F16,
    F16x2,
    Bf16,
    Bf16x2,
    F32,
    F32x2,
    F64,
    Tf32,
    E4m3,
    E5m2,
}

impl ScalarType {
    pub open spec fn spec_bits(self) -> u32 {
        match self {
            ScalarType::Pred => 1,
            ScalarType::B8 | ScalarType::U8 | ScalarType::S8 => 8,
            ScalarType::E4m3 | ScalarType::E5m2 => 8,
            ScalarType::B16 | ScalarType::U16 | ScalarType::S16 => 16,
            ScalarType::F16 | ScalarType::Bf16 => 16,
            ScalarType::B32 | ScalarType::U32 | ScalarType::S32 => 32,
            ScalarType::F16x2 | ScalarType::Bf16x2 | ScalarType::F32 | ScalarType::Tf32 => 32,
            ScalarType::B64 | ScalarType::U64 | ScalarType::S64 => 64,
            ScalarType::F64 | ScalarType::F32x2 => 64,
            ScalarType::B128 => 128,
        }
    }

    /// Width in bits; a predicate is one bit wide.
    #[verifier::when_used_as_spec(spec_bits)]
    pub fn bits(self) -> (r: u32)
        ensures
            r == self.spec_bits(),
            1 <= r <= 128,
    {
        match self {
            ScalarType::Pred => 1,
            ScalarType::B8 | ScalarType::U8 | ScalarType::S8 => 8,
            ScalarType::E4m3 | ScalarType::E5m2 => 8,
            ScalarType::B16 | ScalarType::U16 | ScalarType::S16 => 16,
            ScalarType::F16 | ScalarType::Bf16 => 16,
            ScalarType::B32 | ScalarType::U32 | ScalarType::S32 => 32,
            ScalarType::F16x2 | ScalarType::Bf16x2 | ScalarType::F32 | ScalarType::Tf32 => 32,
            ScalarType::B64 | ScalarType::U64 | ScalarType::S64 => 64,
            ScalarType::F64 | ScalarType::F32x2 => 64,
            ScalarType::B128 => 128,
        }
    }

    pub open spec fn spec_size_bytes(self) -> u32 {
        if self == ScalarType::Pred {
            1
        } else {
            self.spec_bits() / 8
        }
    }

    /// Width in memory, in bytes.
    #[verifier::when_used_as_spec(spec_size_bytes)]
    pub fn size_bytes(self) -> (r: u32)
        ensures
            r == self.spec_size_bytes(),
            1 <= r <= 16,
    {
        if self == ScalarType::Pred {
            1
        } else {
            self.bits() / 8
        }
    }

    pub open spec fn spec_is_float(self) -> bool {
        match self {
            ScalarType::F16 | ScalarType::F16x2 | ScalarType::Bf16 | ScalarType::Bf16x2 => true,
            ScalarType::F32 | ScalarType::F32x2 | ScalarType::F64 | ScalarType::Tf32 => true,
            ScalarType::E4m3 | ScalarType::E5m2 => true,
            _ => false,
        }
    }

    #[verifier::when_used_as_spec(spec_is_float)]
    pub fn is_float(self) -> (r: bool)
        ensures
            r == self.spec_is_float(),
    {
        match self {
            ScalarType::F16 | ScalarType::F16x2 | ScalarType::Bf16 | ScalarType::Bf16x2 => true,
            ScalarType::F32 | ScalarType::F32x2 | ScalarType::F64 | ScalarType::Tf32 => true,
            ScalarType::E4m3 | ScalarType::E5m2 => true,
            _ => false,
        }
    }

    pub open spec fn spec_is_signed_int(self) -> bool {
        match self {
            ScalarType::S8 | ScalarType::S16 | ScalarType::S32 | ScalarType::S64 => true,
            _ => false,
        }
    }

    #[verifier::when_used_as_spec(spec_is_signed_int)]
    pub fn is_signed_int(self) -> (r: bool)
        ensures
            r == self.spec_is_signed_int(),
    {
        match self {
            ScalarType::S8 | ScalarType::S16 | ScalarType::S32 | ScalarType::S64 => true,
            _ => false,
        }
    }

    pub open spec fn spec_is_unsigned_int(self) -> bool {
        match self {
            ScalarType::U8 | ScalarType::U16 | ScalarType::U32 | ScalarType::U64 => true,
            _ => false,
        }
    }

    #[verifier::when_used_as_spec(spec_is_unsigned_int)]
    pub fn is_unsigned_int(self) -> (r: bool)
        ensures
            r == self.spec_is_unsigned_int(),
    {
        match self {
            ScalarType::U8 | ScalarType::U16 | ScalarType::U32 | ScalarType::U64 => true,
            _ => false,
        }
    }

    pub open spec fn spec_is_integer(self) -> bool {
        self.spec_is_signed_int() || self.spec_is_unsigned_int()
    }

    #[verifier::when_used_as_spec(spec_is_integer)]
    pub fn is_integer(self) -> (r: bool)
        ensures
            r == self.spec_is_integer(),
    {
        self.is_signed_int() || self.is_unsigned_int()
    }

    pub open spec fn spec_is_bits_type(self) -> bool {
        match self {
            ScalarType::B8 | ScalarType::B16 | ScalarType::B32 => true,
            ScalarType::B64 | ScalarType::B128 => true,
            _ => false,
        }
    }

    #[verifier::when_used_as_spec(spec_is_bits_type)]
    pub fn is_bits_type(self) -> (r: bool)
        ensures
            r == self.spec_is_bits_type(),
    {
        match self {
            ScalarType::B8 | ScalarType::B16 | ScalarType::B32 => true,
            ScalarType::B64 | ScalarType::B128 => true,
            _ => false,
        }
    }

    pub open spec fn spec_is_predicate(self) -> bool {
        self == ScalarType::Pred
    }

    #[verifier::when_used_as_spec(spec_is_predicate)]
    pub fn is_predicate(self) -> (r: bool)
        ensures
            r == self.spec_is_predicate(),
    {
        self == ScalarType::Pred
    }

    pub open spec fn spec_packed_lane(self) -> Option<ScalarType> {
        match self {
            ScalarType::F16x2 => Some(ScalarType::F16),
            ScalarType::Bf16x2 => Some(ScalarType::Bf16),
            ScalarType::F32x2 => Some(ScalarType::F32),
            _ => None,
        }
    }

    /// The type of each lane of a packed two-lane type.
    #[verifier::when_used_as_spec(spec_packed_lane)]
    pub fn packed_lane(self) -> (r: Option<ScalarType>)
        ensures
            r == self.spec_packed_lane(),
    {
        match self {
            ScalarType::F16x2 => Some(ScalarType::F16),
            ScalarType::Bf16x2 => Some(ScalarType::Bf16),
            ScalarType::F32x2 => Some(ScalarType::F32),
            _ => None,
        }
    }
}

/// Direction of a funnel shift.
#[derive(Debug, Clone, Copy, PartialEq, Eq, Structural)]
pub enum ShiftDir {
    Left,
    Right,
}

/// What a funnel shift does with an out-of-range amount.
#[derive(Debug, Clone, Copy, PartialEq, Eq, Structural)]
pub enum ClampWrapMode {
    Clamp,
    Wrap,
}

/// Register classes, by width.
#[derive(Debug, Clone, Copy, PartialEq, Eq, Structural, Hash)]
pub enum RegClass {
    Pred,
    Bits8,
    Bits16,
    Bits32,
    Bits64,
    Bits128,
}

impl RegClass {
    pub open spec fn spec_name(self) -> &'static str {
        match self {
            RegClass::Pred => "Pred",
            RegClass::Bits8 => "Bits8",
            RegClass::Bits16 => "Bits16",
            RegClass::Bits32 => "Bits32",
            RegClass::Bits64 => "Bits64",
            RegClass::Bits128 => "Bits128",
        }
    }

    /// Name of the class.
    #[verifier::when_used_as_spec(spec_name)]
    pub fn name(self) -> (r: &'static str)
        ensures
            r == self.spec_name(),
    {
        match self {
            RegClass::Pred => "Pred",
            RegClass::Bits8 => "Bits8",
            RegClass::Bits16 => "Bits16",
            RegClass::Bits32 => "Bits32",
            RegClass::Bits64 => "Bits64",
            RegClass::Bits128 => "Bits128",
        }
    }

    pub open spec fn spec_index(self) -> usize {
        match self {
            RegClass::Pred => 0,
            RegClass::Bits8 => 1,
            RegClass::Bits16 => 2,
            RegClass::Bits32 => 3,
            RegClass::Bits64 => 4,
            RegClass::Bits128 => 5,
        }
    }

    /// Dense index of the class.
    #[verifier::when_used_as_spec(spec_index)]
    pub fn index(self) -> (r: usize)
        ensures
            r == self.spec_index(),
            r < 6,
    {
        match self {
            RegClass::Pred => 0,
            RegClass::Bits8 => 1,
            RegClass::Bits16 => 2,
            RegClass::Bits32 => 3,
            RegClass::Bits64 => 4,
            RegClass::Bits128 => 5,
        }
    }

    pub open spec fn spec_size_bytes(self) -> u32 {
        match self {
            RegClass::Pred => 1,
            RegClass::Bits8 => 1,
            RegClass::Bits16 => 2,
            RegClass::Bits32 => 4,
            RegClass::Bits64 => 8,
            RegClass::Bits128 => 16,
        }
    }

    /// Width of a register of the class, in bytes.
    #[verifier::when_used_as_spec(spec_size_bytes)]
    pub fn size_bytes(self) -> (r: u32)
        ensures
            r == self.spec_size_bytes(),
            1 <= r <= 16,
    {
        match self {
            RegClass::Pred => 1,
            RegClass::Bits8 => 1,
            RegClass::Bits16 => 2,
            RegClass::Bits32 => 4,
            RegClass::Bits64 => 8,
            RegClass::Bits128 => 16,
        }
    }
}

/// Number of registers of each class.
#[derive(Debug, Clone, Copy, PartialEq, Eq, Structural)]
pub struct RegCounts {
    pub pred: u32,
    pub bits8: u32,
    pub bits16: u32,
    pub bits32: u32,
    pub bits64: u32,
    pub bits128: u32,
}

impl RegCounts {
    pub open spec fn spec_get(&self, class: RegClass) -> u32 {
        match class {
            RegClass::Pred => self.pred,
            RegClass::Bits8 => self.bits8,
            RegClass::Bits16 => self.bits16,
            RegClass::Bits32 => self.bits32,
            RegClass::Bits64 => self.bits64,
            RegClass::Bits128 => self.bits128,
        }
    }

    #[verifier::when_used_as_spec(spec_get)]
    pub fn get(&self, class: RegClass) -> (r: u32)
        ensures
            r == self.spec_get(class),
    {
        match class {
            RegClass::Pred => self.pred,
            RegClass::Bits8 => self.bits8,
            RegClass::Bits16 => self.bits16,
            RegClass::Bits32 => self.bits32,
            RegClass::Bits64 => self.bits64,
            RegClass::Bits128 => self.bits128,
        }
    }
}

impl ScalarType {
    pub open spec fn spec_debug_name(&self) -> &'static str {
        match self {
            ScalarType::Pred => "Pred",
            ScalarType::B8 => "B8",
            ScalarType::B16 => "B16",
            ScalarType::B32 => "B32",
            ScalarType::B64 => "B64",
            ScalarType::B128 => "B128",
            ScalarType::U8 => "U8",
            ScalarType::U16 => "U16",
            ScalarType::U32 => "U32",
            ScalarType::U64 => "U64",
            ScalarType::S8 => "S8",
            ScalarType::S16 => "S16",
            ScalarType::S32 => "S32",
            ScalarType::S64 => "S64",
            ScalarType::F16 => "F16",
            ScalarType::F16x2 => "F16x2",
            ScalarType::Bf16 => "Bf16",
            ScalarType::Bf16x2 => "Bf16x2",
            ScalarType::F32 => "F32",
            ScalarType::F32x2 => "F32x2",
            ScalarType::F64 => "F64",
            ScalarType::Tf32 => "Tf32",
            ScalarType::E4m3 => "E4m3",
            ScalarType::E5m2 => "E5m2",
        }
    }

    /// The name of the variant.
    #[verifier::when_used_as_spec(spec_debug_name)]
    pub fn debug_name(&self) -> (r: &'static str)
        ensures
            r == self.spec_debug_name(),
    {
        match self {
            ScalarType::Pred => "Pred",
            ScalarType::B8 => "B8",
            ScalarType::B16 => "B16",
            ScalarType::B32 => "B32",
            ScalarType::B64 => "B64",
            ScalarType::B128 => "B128",
            ScalarType::U8 => "U8",
            ScalarType::U16 => "U16",
            ScalarType::U32 => "U32",
            ScalarType::U64 => "U64",
            ScalarType::S8 => "S8",
            ScalarType::S16 => "S16",
            ScalarType::S32 => "S32",
            ScalarType::S64 => "S64",
            ScalarType::F16 => "F16",
            ScalarType::F16x2 => "F16x2",
            ScalarType::Bf16 => "Bf16",
            ScalarType::Bf16x2 => "Bf16x2",
            ScalarType::F32 => "F32",
            ScalarType::F32x2 => "F32x2",
            ScalarType::F64 => "F64",
            ScalarType::Tf32 => "Tf32",
            ScalarType::E4m3 => "E4m3",
            ScalarType::E5m2 => "E5m2",
        }
    }
}

} // verus!
