//! Exact coefficients and decoded floats.

use volta_analysis::canon::coeff::{Coeff, CoeffError};
use volta_analysis::eval::fp8::{
    decode_bf16_bits, decode_e4m3_byte, decode_e5m2_byte, decode_f16_bits, decode_f32_bits,
    decode_f64_bits, FloatValue,
};
use volta_analysis::eval::arith::eval_unop;
use volta_analysis::eval::int_ops::{canon_int, mask_to};
use volta_analysis::lowered::{InstrId, UnaryOp};
use volta_analysis::symbolic::arena::{ExprArena, ExprNode};
use volta_analysis::symbolic::reals::{Real, RealRepr};
use volta_analysis::types::ScalarType;

/// `m * 2^k` as 64-bit limbs, lowest first.
fn shifted(m: u64, k: u32) -> Vec<u64> {
    let mut limbs = vec![0u64; (k / 64) as usize];
    let wide = (m as u128) << (k % 64);
    limbs.push(wide as u64);
    limbs.push((wide >> 64) as u64);
    limbs
}

/// The exact value of a float other than NaN.
fn exact(v: f64) -> Real {
    let repr = match decode_f64_bits(v.to_bits()).unwrap() {
        FloatValue::Infinity { negative: false } => RealRepr::PosInf,
        FloatValue::Infinity { negative: true } => RealRepr::NegInf,
        FloatValue::Finite { mantissa: 0, .. } => RealRepr::Rational {
            negative: false,
            numer: vec![0],
            denom: vec![1],
        },
        FloatValue::Finite { negative, mantissa, exp2 } => {
            let twos = mantissa.trailing_zeros();
            let (odd, exp2) = (mantissa >> twos, exp2 + twos as i32);
            let (numer, denom) = if exp2 >= 0 {
                (shifted(odd, exp2 as u32), vec![1])
            } else {
                (vec![odd], shifted(1, (-exp2) as u32))
            };
            RealRepr::Rational { negative, numer, denom }
        }
    };
    Real { repr }
}

fn coeff_of(v: f64) -> Result<Coeff, CoeffError> {
    Coeff::from_real(&exact(v))
}

fn reduced(num: i128, den: i128) -> Coeff {
    Coeff::reduced(num, den, 0).unwrap()
}

fn to_f64(c: &Coeff) -> f64 {
    let half = c.exp2 / 2;
    c.num as f64 / c.den as f64 * 2f64.powi(half) * 2f64.powi(c.exp2 - half)
}

#[test]
fn test_f64_exact() {
    assert_eq!(coeff_of(0.125).unwrap(), reduced(1, 8));
    assert_eq!(coeff_of(-1.0).unwrap(), Coeff::minus_one());
    assert_eq!(coeff_of(0.0).unwrap(), Coeff::zero());
    // 1e-5 is not 1/100000 in binary; the conversion is bit-exact.
    let c = coeff_of(1e-5).unwrap();
    assert_eq!(to_f64(&c), 1e-5);
    assert_ne!(c, reduced(1, 100000));
}

#[test]
fn test_canonical_scale() {
    assert_eq!(Coeff::from_int(4), reduced(8, 2));
    assert_eq!(
        Coeff::from_int(2).mul(&Coeff::from_int(2)).unwrap(),
        Coeff::from_int(4)
    );
    assert_eq!(reduced(6, 4), reduced(3, 2));
    assert_eq!(Coeff::from_int(4).as_integer(), Some(4));
    assert_eq!(reduced(1, 2).as_integer(), None);
}

#[test]
fn test_non_finite() {
    assert!(coeff_of(f64::INFINITY).is_err());
    assert!(coeff_of(f64::NEG_INFINITY).is_err());
}

#[test]
fn test_subnormal_float32_constant() {
    let bits = f32::from_bits(0x0001_16C2);
    let c = coeff_of(bits as f64).unwrap();
    assert_eq!(to_f64(&c), bits as f64);
    assert_eq!(
        to_f64(&c.mul(&Coeff::from_int(2)).unwrap()),
        2.0 * bits as f64
    );
}

#[test]
fn test_overflow_from_wide_rational() {
    // 2^200 + 1
    let r = Real {
        repr: RealRepr::Rational {
            negative: false,
            numer: vec![1, 0, 0, 1 << 8],
            denom: vec![1],
        },
    };
    assert_eq!(Coeff::from_real(&r), Err(CoeffError::Overflow));
}

#[test]
fn test_arithmetic() {
    let half = coeff_of(0.5).unwrap();
    let quarter = coeff_of(0.25).unwrap();
    assert_eq!(half.mul(&half).unwrap(), quarter);
    assert_eq!(quarter.add(&quarter).unwrap(), half);
    assert_eq!(half.add(&half.neg()).unwrap(), Coeff::zero());
    assert_eq!(half.recip().unwrap(), Coeff::from_int(2));
}

#[test]
fn test_exact_cancellation() {
    // (1/3 + 1/6) - 1/2 == 0 exactly; floats would drift.
    let third = reduced(1, 3);
    let sixth = reduced(1, 6);
    let half = reduced(1, 2);
    let sum = third.add(&sixth).unwrap();
    assert_eq!(sum, half);
    assert!(sum.add(&half.neg()).unwrap().is_zero());
}

#[test]
fn test_display_folds_the_scale() {
    assert_eq!(reduced(1, 8).text(), "1/8");
    assert_eq!(Coeff::from_int(4).text(), "4");
    assert_eq!(Coeff::minus_one().text(), "-1");
}

#[test]
fn coefficient_errors_have_their_texts() {
    assert_eq!(Coeff::zero().recip(), Err(CoeffError::DivByZero));
    assert_eq!(CoeffError::DivByZero.text(), "division by a zero coefficient");
    assert_eq!(CoeffError::Overflow.text(), "rational coefficient overflowed i128");
    assert_eq!(
        coeff_of(f64::NEG_INFINITY),
        Err(CoeffError::NonFinite { negative: true })
    );
    assert_eq!(
        CoeffError::NonFinite { negative: true }.text(),
        "non-finite constant -inf in expression"
    );
    assert_eq!(
        CoeffError::NonFinite { negative: false }.text(),
        "non-finite constant inf in expression"
    );
    let huge = reduced(i128::MAX, 1);
    assert_eq!(huge.mul(&huge), Err(CoeffError::Overflow));
    assert_eq!(Coeff::reduced(i128::MIN, 1, 0), Err(CoeffError::Overflow));
}

#[test]
fn sums_and_products_commute() {
    let (a, b) = (reduced(5, 12), reduced(-7, 30));
    assert_eq!(a.add(&b), b.add(&a));
    assert_eq!(a.add(&b).unwrap(), reduced(11, 60));
    assert_eq!(a.mul(&b), b.mul(&a));
    assert_eq!(a.mul(&b).unwrap(), reduced(-7, 72));
    assert!(b.mul(&b.recip().unwrap()).unwrap().is_one());
}

#[test]
fn sums_and_products_can_be_regrouped() {
    let (a, b, c) = (reduced(3, 40), reduced(-7, 12), reduced(5, 6));
    let left = a.add(&b).unwrap().add(&c).unwrap();
    let right = a.add(&b.add(&c).unwrap()).unwrap();
    assert_eq!(left, right);
    assert_eq!(left, reduced(13, 40));

    let left = a.mul(&b).unwrap().mul(&c).unwrap();
    let right = a.mul(&b.mul(&c).unwrap()).unwrap();
    assert_eq!(left, right);
    assert_eq!(left, reduced(-7, 192));

    let factored = a.mul(&b.add(&c).unwrap()).unwrap();
    let expanded = a.mul(&b).unwrap().add(&a.mul(&c).unwrap()).unwrap();
    assert_eq!(factored, expanded);
    assert_eq!(factored, reduced(3, 160));
}

#[test]
fn the_smallest_integer_fits() {
    let c = Coeff::reduced(-1, 1, 127).unwrap();
    assert_eq!(c.as_integer(), Some(i128::MIN));
    assert_eq!(c.text(), "-170141183460469231731687303715884105728");
    assert_eq!(Coeff::reduced(1, 1, 127).unwrap().as_integer(), None);
    assert_eq!(Coeff::reduced(-1, 1, 128).unwrap().as_integer(), None);
    assert_eq!(Coeff::reduced(1, 1, 126).unwrap().as_integer(), Some(1 << 126));
    let sum = c.add(&Coeff::one()).unwrap();
    assert_eq!(sum.as_integer(), Some(i128::MIN + 1));
}

// ---------------------------------------------------------------------------
// Floats
// ---------------------------------------------------------------------------

fn value(f: FloatValue) -> f64 {
    match f {
        FloatValue::Infinity { negative: true } => f64::NEG_INFINITY,
        FloatValue::Infinity { negative: false } => f64::INFINITY,
        FloatValue::Finite { negative, mantissa, exp2 } => {
            let magnitude = mantissa as f64 * 2f64.powi(exp2);
            if negative {
                -magnitude
            } else {
                magnitude
            }
        }
    }
}

fn e4m3(byte: u8) -> Option<f64> {
    decode_e4m3_byte(byte).map(value)
}

fn e5m2(byte: u8) -> Option<f64> {
    decode_e5m2_byte(byte).map(value)
}

#[test]
fn test_decode_zero() {
    assert_eq!(e4m3(0x00), Some(0.0));
    assert_eq!(e4m3(0x80), Some(-0.0));
}

#[test]
fn test_decode_one_point_zero() {
    assert_eq!(e4m3(0b0_0111_000), Some(1.0));
}

#[test]
fn test_decode_negative() {
    assert_eq!(e4m3(0b1_0111_000), Some(-1.0));
}

#[test]
fn test_decode_max_finite_is_448() {
    assert_eq!(e4m3(0b0_1111_110), Some(448.0));
    assert_eq!(e4m3(0b1_1111_110), Some(-448.0));
}

#[test]
fn test_decode_min_subnormal() {
    assert_eq!(e4m3(0b0_0000_001), Some(2f64.powi(-9)));
}

#[test]
fn test_decode_min_normal() {
    assert_eq!(e4m3(0b0_0001_000), Some(2f64.powi(-6)));
}

#[test]
fn test_decode_nan_bytes() {
    assert_eq!(e4m3(0x7f), None);
    assert_eq!(e4m3(0xff), None);
}

#[test]
fn test_decode_exponent_all_ones_but_not_nan_is_finite() {
    assert!(e4m3(0b0_1111_000).is_some());
    assert!(e4m3(0b0_1111_101).is_some());
}

#[test]
fn test_decode_e5m2_zero() {
    assert_eq!(e5m2(0x00), Some(0.0));
    let negative_zero = e5m2(0x80).unwrap();
    assert_eq!(negative_zero, 0.0);
    assert!(negative_zero.is_sign_negative());
}

#[test]
fn test_decode_e5m2_one_point_zero() {
    assert_eq!(e5m2(0b0_01111_00), Some(1.0));
    assert_eq!(e5m2(0b1_01111_00), Some(-1.0));
}

#[test]
fn test_decode_e5m2_mantissa() {
    assert_eq!(e5m2(0b0_10000_11), Some(3.5));
}

#[test]
fn test_decode_e5m2_max_finite_is_57344() {
    assert_eq!(e5m2(0b0_11110_11), Some(57344.0));
    assert_eq!(e5m2(0b1_11110_11), Some(-57344.0));
}

#[test]
fn test_decode_e5m2_min_subnormal() {
    assert_eq!(e5m2(0b0_00000_01), Some(2f64.powi(-16)));
    assert_eq!(e5m2(0b0_00000_11), Some(3.0 * 2f64.powi(-16)));
}

#[test]
fn test_decode_e5m2_min_normal() {
    assert_eq!(e5m2(0b0_00001_00), Some(2f64.powi(-14)));
}

#[test]
fn test_decode_e5m2_infinity() {
    assert_eq!(e5m2(0b0_11111_00), Some(f64::INFINITY));
    assert_eq!(e5m2(0b1_11111_00), Some(f64::NEG_INFINITY));
}

#[test]
fn test_decode_e5m2_nan_bytes() {
    for byte in [0x7d, 0x7e, 0x7f, 0xfd, 0xfe, 0xff] {
        assert_eq!(e5m2(byte), None, "byte {byte:#04x}");
    }
}

#[test]
fn test_decode_e5m2_matches_f16_upper_byte() {
    for byte in 0..=u8::MAX {
        let as_f16_bits = u16::from(byte) << 8;
        let sign = if as_f16_bits & 0x8000 != 0 { -1.0 } else { 1.0 };
        let exponent = ((as_f16_bits >> 10) & 0x1F) as i32;
        let mantissa = f64::from(as_f16_bits & 0x3FF);
        let expected = match exponent {
            0 => Some(sign * mantissa * 2f64.powi(-24)),
            0x1F if mantissa == 0.0 => Some(sign * f64::INFINITY),
            0x1F => None,
            _ => Some(sign * (1.0 + mantissa / 1024.0) * 2f64.powi(exponent - 15)),
        };
        assert_eq!(e5m2(byte), expected, "byte {byte:#04x}");
        assert_eq!(decode_f16_bits(as_f16_bits).map(value), expected);
    }
}

#[test]
fn wider_floats_decode_exactly() {
    for v in [0.0f32, 1.0, -2.5, 3.0e-45, 1.0e38, f32::INFINITY] {
        assert_eq!(decode_f32_bits(v.to_bits()).map(value), Some(v as f64));
        let upper = (v.to_bits() >> 16) as u16;
        let cut = f32::from_bits(v.to_bits() & 0xFFFF_0000);
        assert_eq!(decode_bf16_bits(upper).map(value), Some(cut as f64));
    }
    assert_eq!(decode_f32_bits(f32::NAN.to_bits()), None);
    assert_eq!(decode_f64_bits(f64::NAN.to_bits()), None);
    assert_eq!(decode_f64_bits(1.5f64.to_bits()).map(value), Some(1.5));
}

// ---------------------------------------------------------------------------
// Integers
// ---------------------------------------------------------------------------

#[test]
fn integers_are_read_at_any_width() {
    assert_eq!(canon_int(300, 8, false), 44);
    assert_eq!(canon_int(0xFF, 8, true), -1);
    assert_eq!(canon_int(-17873, 16, false), 47663);
    assert_eq!(canon_int(i64::MIN, 64, false), i64::MIN);
    for bits in [64, 65, 128, u32::MAX] {
        assert_eq!(canon_int(-5, bits, true), -5);
        assert_eq!(canon_int(-5, bits, false), -5);
        assert_eq!(mask_to(-5, bits), u64::MAX - 4);
    }
    assert_eq!(mask_to(-1, 0), 0);
    assert_eq!(mask_to(-1, 63), u64::MAX >> 1);
    let r = canon_int(0x1234_5678, 13, true);
    assert_eq!(canon_int(r, 13, true), r);
}

// ---------------------------------------------------------------------------
// Powers of two
// ---------------------------------------------------------------------------

/// Whether `ex2(x * c)` is read as `exp(x)` or `exp(-x)`.
fn is_exp_idiom(c: Coeff) -> bool {
    let mut arena = ExprArena::new();
    let name = arena.intern_string(&"x".to_string());
    let x = arena.input_element(name, 0);
    let k = arena.real_const(c);
    let scaled = arena.mul(x, k);
    let e = eval_unop(&mut arena, InstrId(0), UnaryOp::Ex2, ScalarType::F32, scaled).unwrap();
    let minus = arena.neg(x);
    match arena.node(e) {
        ExprNode::Exp(a) => a == x || a == minus,
        other => panic!("{other:?}"),
    }
}

#[test]
fn constants_near_log2e_are_recognized_whatever_their_denominator() {
    assert!(is_exp_idiom(reduced(1442695, 1000000)));
    assert!(is_exp_idiom(reduced(-1442695, 1000000)));
    assert!(is_exp_idiom(coeff_of(std::f32::consts::LOG2_E as f64).unwrap()));
    assert!(is_exp_idiom(coeff_of(std::f64::consts::LOG2_E).unwrap()));
    assert!(is_exp_idiom(reduced(4328085, 3000000)));
    assert!(!is_exp_idiom(reduced(1442, 1000)));
    assert!(!is_exp_idiom(reduced(1443, 1000)));
    assert!(!is_exp_idiom(reduced(3, 2)));
    assert!(!is_exp_idiom(reduced(i128::MAX, 3)));
    assert!(!is_exp_idiom(reduced(1, i128::MAX)));
}
