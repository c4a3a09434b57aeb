//! Exact decoding of binary floating-point bit patterns. Every finite value
//! is a dyadic rational, so a sign, an integer mantissa and a power of two
//! hold it exactly.

use vstd::prelude::*;

verus! {

/// A decoded float other than NaN.
#[derive(Debug, Clone, Copy, PartialEq, Eq, Structural)]
pub enum FloatValue {
    /// `mantissa * 2^exp2`, negated if `negative`.
    Finite { negative: bool, mantissa: u64, exp2: i32 },
    Infinity { negative: bool },
}

/// The value of a float with the given fields: `exp_max` is the all-ones
/// exponent, `hidden` the weight of the implied leading bit, and `shift` the
/// bias plus the number of mantissa bits.
pub open spec fn float_of_fields(
    negative: bool,
    exponent: nat,
    mantissa: nat,
    exp_max: nat,
    hidden: nat,
    shift: int,
) -> Option<FloatValue> {
    if exponent == exp_max {
        if mantissa == 0 {
            Some(FloatValue::Infinity { negative })
        } else {
            None
        }
    } else if exponent == 0 {
        Some(FloatValue::Finite { negative, mantissa: mantissa as u64, exp2: (1 - shift) as i32 })
    } else {
        Some(
            FloatValue::Finite {
                negative,
                mantissa: (hidden + mantissa) as u64,
                exp2: (exponent - shift) as i32,
            },
        )
    }
}

fn from_fields(
    negative: bool,
    exponent: u64,
    mantissa: u64,
    exp_max: u64,
    hidden: u64,
    shift: i32,
) -> (r: Option<FloatValue>)
    requires
        exponent <= 2047,
        mantissa < hidden,
        hidden <= 0x10_0000_0000_0000,
        0 <= shift <= 2000,
    ensures
        r == float_of_fields(
            negative,
            exponent as nat,
            mantissa as nat,
            exp_max as nat,
            hidden as nat,
            shift as int,
        ),
{
    if exponent == exp_max {
        if mantissa == 0 {
            Some(FloatValue::Infinity { negative })
        } else {
            None
        }
    } else if exponent == 0 {
        Some(FloatValue::Finite { negative, mantissa, exp2: 1 - shift })
    } else {
        Some(
            FloatValue::Finite {
                negative,
                mantissa: hidden + mantissa,
                exp2: exponent as i32 - shift,
            },
        )
    }
}

pub open spec fn spec_decode_e4m3_byte(byte: u8) -> Option<FloatValue> {
    let negative = byte >= 128;
    let exponent = (byte as nat / 8) % 16;
    let mantissa = byte as nat % 8;
    if exponent == 15 && mantissa == 7 {
        None
    } else {
        float_of_fields(negative, exponent, mantissa, 16, 8, 10)
    }
}

/// Decode one `.e4m3` byte (bias 7, no infinity), or `None` for NaN
/// (`0x7f`/`0xff`).
#[verifier::when_used_as_spec(spec_decode_e4m3_byte)]
pub fn decode_e4m3_byte(byte: u8) -> (r: Option<FloatValue>)
    ensures
        r == spec_decode_e4m3_byte(byte),
{
    let exponent: u64 = (byte as u64 / 8) % 16;
    let mantissa: u64 = byte as u64 % 8;
    if exponent == 15 && mantissa == 7 {
        return None;
    }
    from_fields(byte >= 128, exponent, mantissa, 16, 8, 10)
}

pub open spec fn spec_decode_e5m2_byte(byte: u8) -> Option<FloatValue> {
    float_of_fields(byte >= 128, (byte as nat / 4) % 32, byte as nat % 4, 31, 4, 17)
}

/// Decode one `.e5m2` byte (bias 15, with infinities), or `None` for NaN.
#[verifier::when_used_as_spec(spec_decode_e5m2_byte)]
pub fn decode_e5m2_byte(byte: u8) -> (r: Option<FloatValue>)
    ensures
        r == spec_decode_e5m2_byte(byte),
{
    from_fields(byte >= 128, (byte as u64 / 4) % 32, byte as u64 % 4, 31, 4, 17)
}

pub open spec fn spec_decode_f16_bits(b: u16) -> Option<FloatValue> {
    float_of_fields(b >= 0x8000, (b as nat / 1024) % 32, b as nat % 1024, 31, 1024, 25)
}

/// Decode an `.f16` bit pattern, or `None` for NaN.
#[verifier::when_used_as_spec(spec_decode_f16_bits)]
pub fn decode_f16_bits(b: u16) -> (r: Option<FloatValue>)
    ensures
        r == spec_decode_f16_bits(b),
{
    from_fields(b >= 0x8000, (b as u64 / 1024) % 32, b as u64 % 1024, 31, 1024, 25)
}

pub open spec fn spec_decode_bf16_bits(b: u16) -> Option<FloatValue> {
    float_of_fields(b >= 0x8000, (b as nat / 128) % 256, b as nat % 128, 255, 128, 134)
}

/// Decode a `.bf16` bit pattern, or `None` for NaN.
#[verifier::when_used_as_spec(spec_decode_bf16_bits)]
pub fn decode_bf16_bits(b: u16) -> (r: Option<FloatValue>)
    ensures
        r == spec_decode_bf16_bits(b),
{
    from_fields(b >= 0x8000, (b as u64 / 128) % 256, b as u64 % 128, 255, 128, 134)
}

pub open spec fn spec_decode_f32_bits(b: u32) -> Option<FloatValue> {
    float_of_fields(
        b >= 0x8000_0000,
        (b as nat / 0x80_0000) % 256,
        b as nat % 0x80_0000,
        255,
        0x80_0000,
        150,
    )
}

/// Decode an `.f32` bit pattern, or `None` for NaN.
#[verifier::when_used_as_spec(spec_decode_f32_bits)]
pub fn decode_f32_bits(b: u32) -> (r: Option<FloatValue>)
    ensures
        r == spec_decode_f32_bits(b),
{
    from_fields(
        b >= 0x8000_0000,
        (b as u64 / 0x80_0000) % 256,
        b as u64 % 0x80_0000,
        255,
        0x80_0000,
        150,
    )
}

pub open spec fn spec_decode_f64_bits(b: u64) -> Option<FloatValue> {
    float_of_fields(
        b >= 0x8000_0000_0000_0000,
        (b as nat / 0x10_0000_0000_0000) % 2048,
        b as nat % 0x10_0000_0000_0000,
        2047,
        0x10_0000_0000_0000,
        1075,
    )
}

/// Decode an `.f64` bit pattern, or `None` for NaN.
#[verifier::when_used_as_spec(spec_decode_f64_bits)]
pub fn decode_f64_bits(b: u64) -> (r: Option<FloatValue>)
    ensures
        r == spec_decode_f64_bits(b),
{
    from_fields(
        b >= 0x8000_0000_0000_0000,
        (b / 0x10_0000_0000_0000) % 2048,
        b % 0x10_0000_0000_0000,
        2047,
        0x10_0000_0000_0000,
        1075,
    )
}

/// An `.e5m2` byte is the upper byte of the `.f16` pattern of the same value.
pub proof fn e5m2_is_the_upper_byte_of_f16(byte: u8)
    ensures
        match (decode_e5m2_byte(byte), decode_f16_bits((byte * 256) as u16)) {
            (None, None) => true,
            (
                Some(FloatValue::Infinity { negative: n1 }),
                Some(FloatValue::Infinity { negative: n2 }),
            ) => n1 == n2,
            (
                Some(FloatValue::Finite { negative: n1, mantissa: m1, exp2: e1 }),
                Some(FloatValue::Finite { negative: n2, mantissa: m2, exp2: e2 }),
            ) => n1 == n2 && m2 == 256 * m1 && e2 == e1 - 8,
            _ => false,
        },
{
}

} // verus!
